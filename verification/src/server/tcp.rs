use vstd::prelude::*;
use vstd::string::*;
use vstd::utf8::encode_utf8;

verus! {

/// Writes back what it reads on a connection, each time after an optional prefix.
#[derive(Debug)]
pub struct EchoProcess {
    pub prefix: Option<String>,
}

/// What a read from the connection gave.
#[derive(Debug)]
pub enum EchoRead {
    /// These bytes; none at the end of the stream.
    Bytes(Vec<u8>),
    /// Nothing yet: the read would block.
    WouldBlock,
    /// The connection was refused or reset.
    Closed,
    /// Another read error, with its text.
    Failed(String),
}

/// What to do after a read.
#[derive(Debug)]
pub enum EchoAction {
    /// End the session.
    Stop,
    /// Write each piece of `framing` in turn, whatever each write gives, then write
    /// `data`; what that last write gives decides (see `EchoTotals::record_write`).
    Echo { framing: Vec<Vec<u8>>, data: Vec<u8> },
    /// Write this error text; what the write gives decides.
    SendError(String),
    /// Write nothing and read again.
    Continue,
}

/// The bytes of each piece of a framing, in order.
pub open spec fn framing_bytes(framing: Seq<Vec<u8>>) -> Seq<Seq<u8>> {
    framing.map_values(|v: Vec<u8>| v@)
}

/// What stands before each echo: the prefix and `": "`, or nothing without a prefix.
pub open spec fn echo_framing(prefix: Option<String>) -> Seq<Seq<u8>> {
    match prefix {
        Some(p) => seq![encode_utf8(p@), encode_utf8(": "@)],
        None => Seq::empty(),
    }
}

/// The bytes read so far on a connection, and the bytes of it echoed.
#[derive(Debug)]
pub struct EchoTotals {
    pub readed: usize,
    pub writed: usize,
}

impl EchoProcess {
    /// Decides what a read `read` asks for, and counts the bytes read into `totals`:
    /// bytes are echoed after the framing, the end of the stream or a closed connection
    /// stops, a read that would block reads again, and another error is written back.
    pub fn on_read(&self, totals: &mut EchoTotals, read: EchoRead) -> (a: EchoAction)
        requires
            read matches EchoRead::Bytes(b) ==> old(totals).readed + b@.len() <= usize::MAX,
        ensures
            final(totals).writed == old(totals).writed,
            match read {
                EchoRead::Bytes(b) => if b@.len() == 0 {
                    &&& a is Stop
                    &&& final(totals).readed == old(totals).readed
                } else {
                    &&& a matches EchoAction::Echo { framing, data } && data@ == b@
                        && framing_bytes(framing@) == echo_framing(self.prefix)
                    &&& final(totals).readed == old(totals).readed + b@.len()
                },
                EchoRead::WouldBlock => {
                    &&& a is Continue
                    &&& final(totals).readed == old(totals).readed
                },
                EchoRead::Closed => {
                    &&& a is Stop
                    &&& final(totals).readed == old(totals).readed
                },
                EchoRead::Failed(m) => {
                    &&& a matches EchoAction::SendError(t) && t@ == m@
                    &&& final(totals).readed == old(totals).readed
                },
            },
    {
        match read {
            EchoRead::Bytes(b) => {
                if b.len() == 0 {
                    EchoAction::Stop
                } else {
                    totals.readed = totals.readed + b.len();
                    let mut framing: Vec<Vec<u8>> = Vec::new();
                    match &self.prefix {
                        Some(p) => {
                            framing.push(p.as_str().as_bytes_vec());
                            framing.push(": ".as_bytes_vec());
                        },
                        None => {},
                    }
                    proof {
                        assert(framing_bytes(framing@) =~= echo_framing(self.prefix));
                    }
                    EchoAction::Echo { framing, data: b }
                }
            },
            EchoRead::WouldBlock => EchoAction::Continue,
            EchoRead::Closed => EchoAction::Stop,
            EchoRead::Failed(m) => EchoAction::SendError(m),
        }
    }
}

impl EchoTotals {
    /// No bytes read or echoed yet.
    pub fn new() -> (r: Self)
        ensures
            r.readed == 0,
            r.writed == 0,
    {
        EchoTotals { readed: 0, writed: 0 }
    }

    /// Takes in what the deciding write of `action` gave: `Some(n)` for `n` bytes
    /// written, `None` for an error. The session goes on unless the write failed; only
    /// the bytes of an echo count as written (an error text counts for none).
    pub fn record_write(&mut self, action: &EchoAction, written: Option<usize>) -> (go_on: bool)
        requires
            action is Echo && written is Some ==> old(self).writed + written->0 <= usize::MAX,
        ensures
            go_on == written is Some,
            final(self).readed == old(self).readed,
            final(self).writed == if action is Echo && written is Some {
                old(self).writed + written->0
            } else {
                old(self).writed as int
            },
    {
        match written {
            Some(n) => {
                match action {
                    EchoAction::Echo { .. } => {
                        self.writed = self.writed + n;
                    },
                    _ => {},
                }
                true
            },
            None => false,
        }
    }
}

} // verus!
