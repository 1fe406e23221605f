use crate::text::{bytes_equal, split, split_on};
use vstd::prelude::*;
use vstd::slice::slice_to_vec;
use vstd::string::StringSliceAdditionalSpecFns;

verus! {

/// What the text that describes a step asks for.
#[derive(Debug)]
pub enum StepChoice {
    /// `stdio:` — the process's standard streams.
    Stdio,
    /// `ws://…` — a web-socket destination at the address given by the
    /// whole text.
    Ws(Vec<u8>),
    /// `wss://…` — the same over TLS.
    Wss(Vec<u8>),
    /// `b64:fw` or `b64:bw` — a base64 codec with the configuration that
    /// follows the colon.
    B64(Vec<u8>),
    /// `tcp://…` — a TCP destination at the address given by the whole
    /// text.
    Tcp(Vec<u8>),
    /// `salt:fw-<length>` or `salt:bw-<length>` — a salt step with the
    /// configuration that follows the colon.
    Salt(Vec<u8>),
    /// A protocol that names no step.
    Unknown,
}

pub enum StepChoiceView {
    Stdio,
    Ws(Seq<u8>),
    Wss(Seq<u8>),
    B64(Seq<u8>),
    Tcp(Seq<u8>),
    Salt(Seq<u8>),
    Unknown,
}

impl View for StepChoice {
    type V = StepChoiceView;

    open spec fn view(&self) -> StepChoiceView {
        match self {
            StepChoice::Stdio => StepChoiceView::Stdio,
            StepChoice::Ws(a) => StepChoiceView::Ws(a@),
            StepChoice::Wss(a) => StepChoiceView::Wss(a@),
            StepChoice::B64(c) => StepChoiceView::B64(c@),
            StepChoice::Tcp(a) => StepChoiceView::Tcp(a@),
            StepChoice::Salt(c) => StepChoiceView::Salt(c@),
            StepChoice::Unknown => StepChoiceView::Unknown,
        }
    }
}

/// What `text` asks for as a step: the protocol is what stands before
/// the first colon, the configuration what stands between the first colon
/// and the second. `None` where there is no colon.
pub open spec fn step_choice_of(text: Seq<u8>) -> Option<StepChoiceView> {
    let parts = split_on(text, 0x3Au8);
    if parts.len() < 2 {
        None
    } else {
        let protocol = parts[0];
        let config = parts[1];
        Some(
            if protocol == "stdio".spec_bytes() {
                StepChoiceView::Stdio
            } else if protocol == "ws".spec_bytes() {
                StepChoiceView::Ws(text)
            } else if protocol == "wss".spec_bytes() {
                StepChoiceView::Wss(text)
            } else if protocol == "b64".spec_bytes() {
                StepChoiceView::B64(config)
            } else if protocol == "tcp".spec_bytes() {
                StepChoiceView::Tcp(text)
            } else if protocol == "salt".spec_bytes() {
                StepChoiceView::Salt(config)
            } else {
                StepChoiceView::Unknown
            },
        )
    }
}

/// Reads the text that describes a step.
pub fn parse_step(text: &[u8]) -> (r: Option<StepChoice>)
    ensures
        match step_choice_of(text@) {
            Some(spec) => r is Some && r.unwrap()@ == spec,
            None => r is None,
        },
{
    let parts = split(text, 0x3Au8);
    if parts.len() < 2 {
        return None;
    }
    let protocol = parts[0].as_slice();
    let spec = if bytes_equal(protocol, "stdio".as_bytes()) {
        StepChoice::Stdio
    } else if bytes_equal(protocol, "ws".as_bytes()) {
        StepChoice::Ws(slice_to_vec(text))
    } else if bytes_equal(protocol, "wss".as_bytes()) {
        StepChoice::Wss(slice_to_vec(text))
    } else if bytes_equal(protocol, "b64".as_bytes()) {
        StepChoice::B64(slice_to_vec(parts[1].as_slice()))
    } else if bytes_equal(protocol, "tcp".as_bytes()) {
        StepChoice::Tcp(slice_to_vec(text))
    } else if bytes_equal(protocol, "salt".as_bytes()) {
        StepChoice::Salt(slice_to_vec(parts[1].as_slice()))
    } else {
        StepChoice::Unknown
    };
    Some(spec)
}

/// The transport that the text that describes an entry selects.
#[derive(Clone, Copy, PartialEq, Eq, Structural, Debug)]
pub enum EntryKind {
    Ws,
    Stdio,
    Tcp,
}

/// The transport that `text` selects as an entry, by what stands before
/// its first colon. `None` where there is no colon or the protocol names
/// no entry.
pub open spec fn entry_kind_of(text: Seq<u8>) -> Option<EntryKind> {
    let parts = split_on(text, 0x3Au8);
    if parts.len() < 2 {
        None
    } else if parts[0] == "ws".spec_bytes() {
        Some(EntryKind::Ws)
    } else if parts[0] == "stdio".spec_bytes() {
        Some(EntryKind::Stdio)
    } else if parts[0] == "tcp".spec_bytes() {
        Some(EntryKind::Tcp)
    } else {
        None
    }
}

/// Reads the text that describes an entry.
pub fn parse_entry_kind(text: &[u8]) -> (r: Option<EntryKind>)
    ensures
        r == entry_kind_of(text@),
{
    let parts = split(text, 0x3Au8);
    if parts.len() < 2 {
        return None;
    }
    let protocol = parts[0].as_slice();
    if bytes_equal(protocol, "ws".as_bytes()) {
        Some(EntryKind::Ws)
    } else if bytes_equal(protocol, "stdio".as_bytes()) {
        Some(EntryKind::Stdio)
    } else if bytes_equal(protocol, "tcp".as_bytes()) {
        Some(EntryKind::Tcp)
    } else {
        None
    }
}

} // verus!
