use vstd::prelude::*;

verus! {

/// Raw bytes collected from one client stream, handed to the processor.
#[derive(Debug)]
pub struct Buffer {
    pub inner: Vec<u8>,
}

/// Bytes that a client is asked to write to its socket.
#[derive(Debug)]
pub struct Write {
    pub message: Vec<u8>,
}

/// A text message exchanged between two peers.
#[derive(Debug)]
pub struct IpcMessage {
    pub inner: String,
}

impl View for Buffer {
    type V = Seq<u8>;

    open spec fn view(&self) -> Seq<u8> {
        self.inner@
    }
}

impl View for Write {
    type V = Seq<u8>;

    open spec fn view(&self) -> Seq<u8> {
        self.message@
    }
}

impl View for IpcMessage {
    type V = Seq<char>;

    open spec fn view(&self) -> Seq<char> {
        self.inner@
    }
}

} // verus!
