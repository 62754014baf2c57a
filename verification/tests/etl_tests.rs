use skopje::error::EtlError;
use skopje::etl::{Extract, Load};

struct Config {
    threshold: i64,
}

struct Reading {
    value: i64,
}

impl Extract for Reading {
    type Client = Config;

    fn extract(client: &Config) -> Result<Reading, EtlError> {
        Ok(Reading { value: client.threshold + 1 })
    }
}

impl Load for Reading {
    type Client = Config;

    fn load(&self, client: &Config) -> Result<(), EtlError> {
        if self.value > client.threshold {
            Ok(())
        } else {
            Err(EtlError::RaceLoss)
        }
    }
}

#[test]
fn capability_traits_compose() {
    // Any type may act as a client: the marker capabilities are blanket.
    let client = Config { threshold: 10 };
    let reading = Reading::extract(&client).unwrap();
    assert_eq!(reading.value, 11);
    assert!(reading.load(&client).is_ok());
}
