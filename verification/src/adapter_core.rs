//! What every output adapter has in common.

use vstd::prelude::*;
use vstd::string::*;

verus! {

/// What an output adapter can do.
#[derive(Clone, Copy, Debug, Eq, PartialEq, Hash, Structural)]
pub enum Capability {
    /// Color by channel.
    Rgb,
    /// Dimming.
    Dimmer,
    /// Strobe and shutter control.
    Strobe,
    /// Addressable pixel strip.
    PixelStrip,
    /// Addressable pixel grid.
    PixelGrid,
    /// Raw channel output.
    DmxRaw,
    /// Laser vector output.
    LaserVector,
    /// More than 100 updates a second.
    HighRate,
}

/// Why an output adapter failed.
#[derive(Debug)]
pub enum AdapterError {
    /// The device could not be reached.
    Connect(String),
    /// A frame could not be rendered.
    Render(String),
    /// An I/O operation failed.
    Io(std::io::Error),
    /// The protocol was violated.
    Protocol(String),
}

impl From<std::io::Error> for AdapterError {
    fn from(value: std::io::Error) -> (result: AdapterError) {
        AdapterError::Io(value)
    }
}

impl vstd::std_specs::convert::FromSpecImpl<std::io::Error> for AdapterError {
    open spec fn obeys_from_spec() -> bool {
        true
    }

    open spec fn from_spec(value: std::io::Error) -> AdapterError {
        AdapterError::Io(value)
    }
}

/// What an adapter error holds.
pub enum AdapterErrorView {
    /// The device could not be reached.
    Connect(Seq<char>),
    /// A frame could not be rendered.
    Render(Seq<char>),
    /// An I/O operation failed.
    Io(std::io::Error),
    /// The protocol was violated.
    Protocol(Seq<char>),
}

impl View for AdapterError {
    type V = AdapterErrorView;

    open spec fn view(&self) -> AdapterErrorView {
        match *self {
            AdapterError::Connect(text) => AdapterErrorView::Connect(text@),
            AdapterError::Render(text) => AdapterErrorView::Render(text@),
            AdapterError::Io(error) => AdapterErrorView::Io(error),
            AdapterError::Protocol(text) => AdapterErrorView::Protocol(text@),
        }
    }
}

/// The text of an adapter error, where `cause` is the text of an I/O error.
pub open spec fn adapter_error_text(error: AdapterErrorView, cause: Seq<char>) -> Seq<char> {
    match error {
        AdapterErrorView::Connect(text) => "connect failed: "@ + text,
        AdapterErrorView::Render(text) => "render failed: "@ + text,
        AdapterErrorView::Io(_) => "io: "@ + cause,
        AdapterErrorView::Protocol(text) => "protocol: "@ + text,
    }
}

impl AdapterError {
    /// The text of the error. Of an I/O error the caller gives the text of the
    /// cause.
    pub fn message(&self, cause: &str) -> (result: String)
        ensures
            result@ == adapter_error_text(self@, cause@),
    {
        match self {
            AdapterError::Connect(text) => "connect failed: ".to_owned().concat(text.as_str()),
            AdapterError::Render(text) => "render failed: ".to_owned().concat(text.as_str()),
            AdapterError::Io(_) => "io: ".to_owned().concat(cause),
            AdapterError::Protocol(text) => "protocol: ".to_owned().concat(text.as_str()),
        }
    }
}

/// The texts of the errors: what failed, and why.
pub proof fn lemma_adapter_error_texts(why: Seq<char>, error: std::io::Error, cause: Seq<char>)
    ensures
        adapter_error_text(AdapterErrorView::Connect(why), cause) == "connect failed: "@ + why,
        adapter_error_text(AdapterErrorView::Render(why), cause) == "render failed: "@ + why,
        adapter_error_text(AdapterErrorView::Io(error), cause) == "io: "@ + cause,
        adapter_error_text(AdapterErrorView::Protocol(why), cause) == "protocol: "@ + why,
{
}

} // verus!
