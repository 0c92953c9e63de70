use vstd::prelude::*;

verus! {

/// Why a wire string could not be read as a message.
#[derive(Debug, Clone, Copy, PartialEq, Eq, Structural)]
pub enum ProtocolError {
    /// The string holds no `@` delimiter.
    Malformed,
    /// The text before the first `@` is not one of the tags `P`, `M`, `K`.
    UnknownTag,
}

/// Type of messages that can be passed between agents.
#[derive(Debug, Clone, PartialEq, Eq)]
pub enum Msg {
    Ping(String),
    Message(String),
    Kill(),
}

/// The mathematical value of a message.
pub enum MsgView {
    Ping(Seq<char>),
    Message(Seq<char>),
    Kill,
}

impl View for Msg {
    type V = MsgView;

    open spec fn view(&self) -> MsgView {
        match self {
            Msg::Ping(c) => MsgView::Ping(c@),
            Msg::Message(c) => MsgView::Message(c@),
            Msg::Kill() => MsgView::Kill,
        }
    }
}

/// The separator between the tag and the payload.
pub const DELIM: char = '@';

/// The wire form of a message: `<tag>@<payload>`, where a kill carries `0`.
pub open spec fn wire(m: MsgView) -> Seq<char> {
    match m {
        MsgView::Ping(c) => seq!['P', '@'] + c,
        MsgView::Message(c) => seq!['M', '@'] + c,
        MsgView::Kill => seq!['K', '@', '0'],
    }
}

/// What a wire string reads as. The string is split once on its first `@`;
/// the text before it must be a single tag letter, and everything after it is
/// the payload (ignored for a kill).
pub open spec fn parse(s: Seq<char>) -> Result<MsgView, ProtocolError> {
    if !s.contains('@') {
        Err(ProtocolError::Malformed)
    } else if s.len() >= 2 && s[1] == '@' && s[0] == 'P' {
        Ok(MsgView::Ping(s.skip(2)))
    } else if s.len() >= 2 && s[1] == '@' && s[0] == 'M' {
        Ok(MsgView::Message(s.skip(2)))
    } else if s.len() >= 2 && s[1] == '@' && s[0] == 'K' {
        Ok(MsgView::Kill)
    } else {
        Err(ProtocolError::UnknownTag)
    }
}

/// The mathematical value of a decoding result.
pub open spec fn decoded_view(r: Result<Msg, ProtocolError>) -> Result<MsgView, ProtocolError> {
    match r {
        Ok(m) => Ok(m@),
        Err(e) => Err(e),
    }
}

/// Relies on str::split_once: the text before the first occurrence of `d`
/// and the text after it, or `None` where `d` does not occur.
#[verifier::external_body]
pub(crate) fn split_once_char<'a>(s: &'a str, d: char) -> (r: Option<(&'a str, &'a str)>)
    ensures
        match r {
            None => !s@.contains(d),
            Some((a, b)) => s@ == a@ + seq![d] + b@ && !a@.contains(d),
        },
{
    s.split_once(d)
}

impl Msg {
    /// Convert a message - ensures format as the listener expects it.
    pub fn to_msg(&self) -> (r: String)
        ensures
            r@ == wire(self@),
    {
        proof {
            reveal_strlit("P@");
            reveal_strlit("M@");
            reveal_strlit("K@0");
            assert("P@"@ =~= seq!['P', '@']);
            assert("M@"@ =~= seq!['M', '@']);
            assert("K@0"@ =~= seq!['K', '@', '0']);
        }
        match self {
            Msg::Ping(content) => {
                let mut s = "P@".to_owned();
                s.append(content.as_str());
                s
            },
            Msg::Message(content) => {
                let mut s = "M@".to_owned();
                s.append(content.as_str());
                s
            },
            Msg::Kill() => "K@0".to_owned(),
        }
    }
}

/// Read a wire string as a message.
pub fn decode(raw: &str) -> (r: Result<Msg, ProtocolError>)
    ensures
        decoded_view(r) == parse(raw@),
{
    match split_once_char(raw, DELIM) {
        None => Err(ProtocolError::Malformed),
        Some((head, body)) => {
            let tag = head.to_owned();
            proof {
                reveal_strlit("P");
                reveal_strlit("M");
                reveal_strlit("K");
                assert("P"@ =~= seq!['P']);
                assert("M"@ =~= seq!['M']);
                assert("K"@ =~= seq!['K']);
                assert(raw@[head@.len() as int] == '@');
                if head@.len() == 1 {
                    assert(head@ =~= seq![head@[0]]);
                    assert(raw@[0] == head@[0]);
                } else if head@.len() >= 2 {
                    assert(raw@[1] == head@[1]);
                }
            }
            let is_ping = tag == "P".to_owned();
            let is_message = tag == "M".to_owned();
            let is_kill = tag == "K".to_owned();
            assert(is_ping == (head@ == seq!['P']));
            assert(is_message == (head@ == seq!['M']));
            assert(is_kill == (head@ == seq!['K']));
            if is_ping {
                assert(raw@.skip(2) =~= body@);
                Ok(Msg::Ping(body.to_owned()))
            } else if is_message {
                assert(raw@.skip(2) =~= body@);
                Ok(Msg::Message(body.to_owned()))
            } else if is_kill {
                Ok(Msg::Kill())
            } else {
                Err(ProtocolError::UnknownTag)
            }
        },
    }
}

/// Decoding the wire form of any message gives that message back.
pub proof fn lemma_round_trip(m: MsgView)
    ensures
        parse(wire(m)) == Ok::<MsgView, ProtocolError>(m),
{
    let s = wire(m);
    assert(s[1] == '@');
    match m {
        MsgView::Ping(c) => assert(s.skip(2) =~= c),
        MsgView::Message(c) => assert(s.skip(2) =~= c),
        MsgView::Kill => {},
    }
}

} // verus!
