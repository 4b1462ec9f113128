//! What can go wrong in a feed session.

use crate::orderbook::{gap_text, SequenceGap};
use crate::text::{is_numeral, law_notation_is_the_numeral, nat_text, u64_text};
use vstd::prelude::*;
use vstd::string::*;

verus! {

/// Which number of a level could not be read.
#[derive(Clone, Copy, Debug, PartialEq, Eq, Structural)]
pub enum Field {
    Price,
    Qty,
    Size,
}

/// A reason to end a session, or to refuse a message.
#[derive(Debug)]
pub enum FeedError {
    /// A number of a level is no decimal. `quoted` says how the text is
    /// reported: in quotation marks, where it came as a string.
    BadNumber { field: Field, text: String, quoted: bool, cause: String },
    /// A change is neither a `buy` nor a `sell`.
    UnknownSide { side: String },
    /// A book message does not have the form of one.
    Malformed { reason: String },
    /// A delta does not line up with the book of its symbol.
    Gap { symbol: String, gap: SequenceGap },
    /// A delta that was buffered does not line up with the snapshot.
    ReplayGap { gap: SequenceGap },
    /// The maintained book is not the one that the exchange has.
    ChecksumMismatch { computed: u32, expected: u32 },
    /// A delta came where the snapshot was asked for.
    ExpectedSnapshot,
    /// The socket closed before the snapshot was there.
    ClosedBeforeSnapshot,
    /// The connection, or the request for the snapshot, failed.
    Transport { reason: String },
    /// The feed tracks no symbol.
    NoSymbol,
    /// The snapshot was refused with an HTTP status.
    SnapshotRefused { status: u16 },
    /// The feed has no snapshot to fetch: it comes over the socket.
    NoRestSnapshot { reason: String },
}

/// What a [`FeedError`] says.
pub enum Fault {
    BadNumber { field: Field, text: Seq<char>, quoted: bool, cause: Seq<char> },
    UnknownSide { side: Seq<char> },
    Malformed { reason: Seq<char> },
    Gap { symbol: Seq<char>, gap: SequenceGap },
    ReplayGap { gap: SequenceGap },
    ChecksumMismatch { computed: u32, expected: u32 },
    ExpectedSnapshot,
    ClosedBeforeSnapshot,
    Transport { reason: Seq<char> },
    NoSymbol,
    SnapshotRefused { status: u16 },
    NoRestSnapshot { reason: Seq<char> },
}

impl View for FeedError {
    type V = Fault;

    open spec fn view(&self) -> Fault {
        match *self {
            FeedError::BadNumber { field, text, quoted, cause } => Fault::BadNumber {
                field,
                text: text@,
                quoted,
                cause: cause@,
            },
            FeedError::UnknownSide { side } => Fault::UnknownSide { side: side@ },
            FeedError::Malformed { reason } => Fault::Malformed { reason: reason@ },
            FeedError::Gap { symbol, gap } => Fault::Gap { symbol: symbol@, gap },
            FeedError::ReplayGap { gap } => Fault::ReplayGap { gap },
            FeedError::ChecksumMismatch { computed, expected } => Fault::ChecksumMismatch {
                computed,
                expected,
            },
            FeedError::ExpectedSnapshot => Fault::ExpectedSnapshot,
            FeedError::ClosedBeforeSnapshot => Fault::ClosedBeforeSnapshot,
            FeedError::Transport { reason } => Fault::Transport { reason: reason@ },
            FeedError::NoSymbol => Fault::NoSymbol,
            FeedError::SnapshotRefused { status } => Fault::SnapshotRefused { status },
            FeedError::NoRestSnapshot { reason } => Fault::NoRestSnapshot { reason: reason@ },
        }
    }
}

/// What `<str as Debug>::fmt` makes of a text: quotation marks around it, and
/// escapes in it.
pub uninterp spec fn quoted_text(text: Seq<char>) -> Seq<char>;

/// Formats with `<str as Debug>::fmt`. The result is a function of the text.
#[verifier::external_body]
fn quote(text: &str) -> (quoted: String)
    ensures
        quoted@ == quoted_text(text@),
{
    format!("{:?}", text)
}

/// The name of a number in a report.
pub open spec fn field_text(field: Field) -> Seq<char> {
    match field {
        Field::Price => "price"@,
        Field::Qty => "qty"@,
        Field::Size => "size"@,
    }
}

/// The words in which a fault is reported.
pub open spec fn fault_text(fault: Fault) -> Seq<char> {
    match fault {
        Fault::BadNumber { field, text, quoted, cause } => "bad "@ + field_text(field) + " "@ + (
        if quoted {
            quoted_text(text)
        } else {
            text
        }) + ": "@ + cause,
        Fault::UnknownSide { side } => "unknown side "@ + quoted_text(side),
        Fault::Malformed { reason } => reason,
        Fault::Gap { symbol, gap } => symbol + ": "@ + gap_text(gap),
        Fault::ReplayGap { gap } => "gap while replaying snapshot buffer: "@ + gap_text(gap),
        Fault::ChecksumMismatch { computed, expected } => "book checksum mismatch: computed "@
            + nat_text(computed as nat) + ", expected "@ + nat_text(expected as nat),
        Fault::ExpectedSnapshot => "expected snapshot, got delta"@,
        Fault::ClosedBeforeSnapshot => "socket closed before snapshot"@,
        Fault::Transport { reason } => reason,
        Fault::NoSymbol => "no symbol configured"@,
        Fault::SnapshotRefused { status } => "snapshot HTTP "@ + nat_text(status as nat),
        Fault::NoRestSnapshot { reason } => reason,
    }
}

impl FeedError {
    /// The error in words.
    pub fn to_text(&self) -> (words: String)
        ensures
            words@ == fault_text(self@),
    {
        let mut words: String = String::new();
        match self {
            FeedError::BadNumber { field, text, quoted, cause } => {
                words.append("bad ");
                words.append(
                    match field {
                        Field::Price => "price",
                        Field::Qty => "qty",
                        Field::Size => "size",
                    },
                );
                words.append(" ");
                if *quoted {
                    words.append(quote(text.as_str()).as_str());
                } else {
                    words.append(text.as_str());
                }
                words.append(": ");
                words.append(cause.as_str());
            },
            FeedError::UnknownSide { side } => {
                words.append("unknown side ");
                words.append(quote(side.as_str()).as_str());
            },
            FeedError::Malformed { reason } => words.append(reason.as_str()),
            FeedError::Gap { symbol, gap } => {
                words.append(symbol.as_str());
                words.append(": ");
                words.append(gap.to_text().as_str());
            },
            FeedError::ReplayGap { gap } => {
                words.append("gap while replaying snapshot buffer: ");
                words.append(gap.to_text().as_str());
            },
            FeedError::ChecksumMismatch { computed, expected } => {
                words.append("book checksum mismatch: computed ");
                words.append(u64_text(*computed as u64).as_str());
                words.append(", expected ");
                words.append(u64_text(*expected as u64).as_str());
            },
            FeedError::ExpectedSnapshot => words.append("expected snapshot, got delta"),
            FeedError::ClosedBeforeSnapshot => words.append("socket closed before snapshot"),
            FeedError::Transport { reason } => words.append(reason.as_str()),
            FeedError::NoSymbol => words.append("no symbol configured"),
            FeedError::SnapshotRefused { status } => {
                words.append("snapshot HTTP ");
                words.append(u64_text(*status as u64).as_str());
            },
            FeedError::NoRestSnapshot { reason } => words.append(reason.as_str()),
        }
        words
    }
}

/// A checksum mismatch is reported with both checksums, the computed one first,
/// and a refused snapshot with its status, each by its numeral.
pub proof fn law_numbers_are_named(computed: u32, expected: u32, status: u16)
    ensures
        exists|a: Seq<char>, b: Seq<char>|
            #![trigger is_numeral(a, computed as nat), is_numeral(b, expected as nat)]
            {
                &&& is_numeral(a, computed as nat)
                &&& is_numeral(b, expected as nat)
                &&& fault_text(Fault::ChecksumMismatch { computed, expected })
                    == "book checksum mismatch: computed "@ + a + ", expected "@ + b
            },
        exists|a: Seq<char>|
            #![trigger is_numeral(a, status as nat)]
            is_numeral(a, status as nat) && fault_text(Fault::SnapshotRefused { status })
                == "snapshot HTTP "@ + a,
{
    law_notation_is_the_numeral(computed as nat);
    law_notation_is_the_numeral(expected as nat);
    law_notation_is_the_numeral(status as nat);
}

/// A gap is reported with its symbol and both update ids; one in the buffer with
/// both ids.
pub proof fn law_gaps_are_named(symbol: Seq<char>, gap: SequenceGap)
    ensures
        exists|due: Seq<char>, came: Seq<char>|
            #![trigger is_numeral(due, gap.expected as nat), is_numeral(came, gap.got as nat)]
            {
                &&& is_numeral(due, gap.expected as nat)
                &&& is_numeral(came, gap.got as nat)
                &&& fault_text(Fault::Gap { symbol, gap }) == symbol + ": "@ + (
                "sequence gap: expected "@ + due + ", got "@ + came)
                &&& fault_text(Fault::ReplayGap { gap }) == "gap while replaying snapshot buffer: "@
                    + ("sequence gap: expected "@ + due + ", got "@ + came)
            },
{
    law_notation_is_the_numeral(gap.expected as nat);
    law_notation_is_the_numeral(gap.got as nat);
}

/// A number that cannot be read is reported with its name, its text and the
/// reason; the text stands in quotation marks exactly if it came as a string.
pub proof fn law_bad_numbers_are_named(text: Seq<char>, cause: Seq<char>)
    ensures
        fault_text(Fault::BadNumber { field: Field::Price, text, quoted: true, cause })
            == "bad price "@ + quoted_text(text) + ": "@ + cause,
        fault_text(Fault::BadNumber { field: Field::Qty, text, quoted: true, cause })
            == "bad qty "@ + quoted_text(text) + ": "@ + cause,
        fault_text(Fault::BadNumber { field: Field::Size, text, quoted: true, cause })
            == "bad size "@ + quoted_text(text) + ": "@ + cause,
        fault_text(Fault::BadNumber { field: Field::Price, text, quoted: false, cause })
            == "bad price "@ + text + ": "@ + cause,
        fault_text(Fault::BadNumber { field: Field::Qty, text, quoted: false, cause })
            == "bad qty "@ + text + ": "@ + cause,
        fault_text(Fault::UnknownSide { side: text }) == "unknown side "@ + quoted_text(text),
{
    reveal_strlit("bad ");
    reveal_strlit(" ");
    reveal_strlit("price");
    reveal_strlit("qty");
    reveal_strlit("size");
    reveal_strlit("bad price ");
    reveal_strlit("bad qty ");
    reveal_strlit("bad size ");
    assert("bad "@ + "price"@ + " "@ =~= "bad price "@);
    assert("bad "@ + "qty"@ + " "@ =~= "bad qty "@);
    assert("bad "@ + "size"@ + " "@ =~= "bad size "@);
}

/// What an outside party gives as its reason is passed on word for word.
pub proof fn law_reasons_are_passed_on(reason: Seq<char>)
    ensures
        fault_text(Fault::Malformed { reason }) == reason,
        fault_text(Fault::Transport { reason }) == reason,
        fault_text(Fault::NoRestSnapshot { reason }) == reason,
{
}

} // verus!
