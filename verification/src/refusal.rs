//! Why something that arrived, or was asked for, is refused.

use vstd::prelude::*;
use vstd::string::*;

verus! {

/// What is refused, with the text that is at fault.
#[derive(Clone, Debug, PartialEq, Eq)]
pub enum Refusal {
    /// A datagram that is not text.
    NotUtf8,
    /// A start line that is none of the three.
    NotStartLine(String),
    /// A header line without a colon.
    NoColon(String),
    /// A send target under another scheme.
    NotTarget(String),
    /// An origin without a peer.
    NoPeer(String),
    /// A search for something other than a chunk of a Stream.
    OtherSearch(String),
    /// An odd number of hex digits.
    OddHex(String),
    /// Text that is not pairs of hex digits.
    NotHex(String),
    /// A Stream of more chunks than can be counted.
    Endless,
}

/// A refusal, its text as a sequence of characters.
pub enum RefusalView {
    NotUtf8,
    NotStartLine(Seq<char>),
    NoColon(Seq<char>),
    NotTarget(Seq<char>),
    NoPeer(Seq<char>),
    OtherSearch(Seq<char>),
    OddHex(Seq<char>),
    NotHex(Seq<char>),
    Endless,
}

impl View for Refusal {
    type V = RefusalView;

    open spec fn view(&self) -> RefusalView {
        match self {
            Refusal::NotUtf8 => RefusalView::NotUtf8,
            Refusal::NotStartLine(text) => RefusalView::NotStartLine(text@),
            Refusal::NoColon(text) => RefusalView::NoColon(text@),
            Refusal::NotTarget(text) => RefusalView::NotTarget(text@),
            Refusal::NoPeer(text) => RefusalView::NoPeer(text@),
            Refusal::OtherSearch(text) => RefusalView::OtherSearch(text@),
            Refusal::OddHex(text) => RefusalView::OddHex(text@),
            Refusal::NotHex(text) => RefusalView::NotHex(text@),
            Refusal::Endless => RefusalView::Endless,
        }
    }
}

/// `text` between quotation marks, with what is not printable escaped.
pub uninterp spec fn quoted(text: Seq<char>) -> Seq<char>;

/// `Debug` of `str`, through `format!("{:?}")`: `text` quoted and escaped. How
/// each character is escaped is not stated.
#[verifier::external_body]
fn quote(text: &str) -> (shown: String)
    ensures
        shown@ == quoted(text@),
{
    format!("{:?}", text)
}

impl RefusalView {
    /// What is wrong.
    pub open spec fn lead(self) -> Seq<char> {
        match self {
            RefusalView::NotUtf8 => "a message not UTF-8"@,
            RefusalView::NotStartLine(_) => "not an SSDP start line: "@,
            RefusalView::NoColon(_) => "a header without a colon: "@,
            RefusalView::NotTarget(_) => "not an ssdp target: "@,
            RefusalView::NoPeer(_) => "an origin naming no peer: "@,
            RefusalView::OtherSearch(_) => "a search for something else: "@,
            RefusalView::OddHex(_) => "an odd number of hex digits: "@,
            RefusalView::NotHex(_) => "not hex: "@,
            RefusalView::Endless => "a Stream that never ends"@,
        }
    }

    /// What it is wrong with: targets and origins as they are, other text
    /// quoted.
    pub open spec fn shown(self) -> Seq<char> {
        match self {
            RefusalView::NotUtf8 => seq![],
            RefusalView::NotStartLine(text) => quoted(text),
            RefusalView::NoColon(text) => quoted(text),
            RefusalView::NotTarget(text) => text,
            RefusalView::NoPeer(text) => text,
            RefusalView::OtherSearch(text) => quoted(text),
            RefusalView::OddHex(text) => quoted(text),
            RefusalView::NotHex(text) => quoted(text),
            RefusalView::Endless => seq![],
        }
    }
}

impl Refusal {
    /// Whether trying again could help. It never does: what was refused
    /// would be refused again.
    pub fn retryable(&self) -> (again: bool)
        ensures
            !again,
    {
        false
    }

    /// What is wrong, said of `shown`.
    pub fn message_showing(&self, shown: &str) -> (message: String)
        ensures
            message@ == self@.lead() + shown@,
    {
        let lead = match self {
            Refusal::NotUtf8 => "a message not UTF-8",
            Refusal::NotStartLine(_) => "not an SSDP start line: ",
            Refusal::NoColon(_) => "a header without a colon: ",
            Refusal::NotTarget(_) => "not an ssdp target: ",
            Refusal::NoPeer(_) => "an origin naming no peer: ",
            Refusal::OtherSearch(_) => "a search for something else: ",
            Refusal::OddHex(_) => "an odd number of hex digits: ",
            Refusal::NotHex(_) => "not hex: ",
            Refusal::Endless => "a Stream that never ends",
        };
        lead.to_string().concat(shown)
    }

    /// What is wrong, and with what.
    pub fn message(&self) -> (message: String)
        ensures
            message@ == self@.lead() + self@.shown(),
    {
        let shown = match self {
            Refusal::NotUtf8 | Refusal::Endless => String::new(),
            Refusal::NotTarget(text) | Refusal::NoPeer(text) => text.clone(),
            Refusal::NotStartLine(text)
            | Refusal::NoColon(text)
            | Refusal::OtherSearch(text)
            | Refusal::OddHex(text)
            | Refusal::NotHex(text) => quote(text.as_str()),
        };
        self.message_showing(shown.as_str())
    }
}

/// What each refusal says: what is wrong, then the text at fault, quoted but
/// for targets and origins.
pub proof fn refusals_say(text: Seq<char>)
    ensures
        ({
            let said = |refusal: RefusalView| refusal.lead() + refusal.shown();
            &&& said(RefusalView::NotUtf8) == "a message not UTF-8"@
            &&& said(RefusalView::NotStartLine(text)) == "not an SSDP start line: "@ + quoted(text)
            &&& said(RefusalView::NoColon(text)) == "a header without a colon: "@ + quoted(text)
            &&& said(RefusalView::NotTarget(text)) == "not an ssdp target: "@ + text
            &&& said(RefusalView::NoPeer(text)) == "an origin naming no peer: "@ + text
            &&& said(RefusalView::OtherSearch(text)) == "a search for something else: "@ + quoted(
                text,
            )
            &&& said(RefusalView::OddHex(text)) == "an odd number of hex digits: "@ + quoted(text)
            &&& said(RefusalView::NotHex(text)) == "not hex: "@ + quoted(text)
            &&& said(RefusalView::Endless) == "a Stream that never ends"@
        }),
{
    assert("a message not UTF-8"@ + Seq::<char>::empty() =~= "a message not UTF-8"@);
    assert("a Stream that never ends"@ + Seq::<char>::empty() =~= "a Stream that never ends"@);
}

/// A refusal is seen as it is, its text as characters.
pub proof fn refusals_are_seen(text: String)
    ensures
        Refusal::NotUtf8@ == RefusalView::NotUtf8,
        Refusal::NotStartLine(text)@ == RefusalView::NotStartLine(text@),
        Refusal::NoColon(text)@ == RefusalView::NoColon(text@),
        Refusal::NotTarget(text)@ == RefusalView::NotTarget(text@),
        Refusal::NoPeer(text)@ == RefusalView::NoPeer(text@),
        Refusal::OtherSearch(text)@ == RefusalView::OtherSearch(text@),
        Refusal::OddHex(text)@ == RefusalView::OddHex(text@),
        Refusal::NotHex(text)@ == RefusalView::NotHex(text@),
        Refusal::Endless@ == RefusalView::Endless,
{
}

/// What is wrong, said of anything.
pub proof fn refusals_lead(text: Seq<char>)
    ensures
        RefusalView::NotUtf8.lead() == "a message not UTF-8"@,
        RefusalView::NotStartLine(text).lead() == "not an SSDP start line: "@,
        RefusalView::NoColon(text).lead() == "a header without a colon: "@,
        RefusalView::NotTarget(text).lead() == "not an ssdp target: "@,
        RefusalView::NoPeer(text).lead() == "an origin naming no peer: "@,
        RefusalView::OtherSearch(text).lead() == "a search for something else: "@,
        RefusalView::OddHex(text).lead() == "an odd number of hex digits: "@,
        RefusalView::NotHex(text).lead() == "not hex: "@,
        RefusalView::Endless.lead() == "a Stream that never ends"@,
{
}

} // verus!
