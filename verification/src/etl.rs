//! The capability interfaces of the pipeline: what may act as a client for
//! extraction, what may act as a client for loading, and how a data type
//! states the two stages it takes part in.

use vstd::prelude::*;
use crate::error::EtlError;

verus! {

/// Marker trait to define what has extract functionality.
pub trait Extractor {

}

impl<T> Extractor for T {

}

/// Marker trait to define what has load functionality.
pub trait Loader {

}

impl<T> Loader for T {

}

/// Extract the data from some source.
pub trait Extract: Sized {
    type Client: Extractor;

    /// How is the data extracted?
    fn extract(client: &Self::Client) -> Result<Self, EtlError>;
}

/// Load the data to some data center.
pub trait Load {
    type Client: Loader;

    /// How is the data loaded?
    fn load(&self, client: &Self::Client) -> Result<(), EtlError>;
}

} // verus!
