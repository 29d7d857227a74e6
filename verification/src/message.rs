//! Response formatting: the outcome of a lookup — a record list or a
//! failure — becomes exactly one outbound chat message.

use vstd::prelude::*;
use vstd::string::*;
use crate::directory::DirectoryError;
use crate::directory::DirectoryRecord;
use crate::directory::DirectoryResult;

verus! {

/// One card of the outbound message, standing for one resolved identity.
#[derive(Debug)]
pub struct AttachmentCard {
    pub color: String,
    pub author_name: String,
    pub author_icon: String,
}

/// The one chat message a request yields: always posted in the channel,
/// with either a card per resolved identity or a failure text.
#[derive(Debug)]
pub struct OutboundMessage {
    pub response_type: String,
    pub text: String,
    pub attachments: Vec<AttachmentCard>,
}

/// The fixed brand color every card carries.
pub open spec fn brand_color() -> Seq<char> {
    "#73535ad"@
}

/// The visibility marker every outbound message carries.
pub open spec fn in_channel() -> Seq<char> {
    "in_channel"@
}

/// The author line of a card: the record's display name, then its id.
pub open spec fn author_line(display_name: Seq<char>, id: Seq<char>) -> Seq<char> {
    display_name + ": "@ + id
}

/// The text shown when a lookup failed, built from the original command
/// text; the specific cause is deliberately not exposed to the caller.
pub open spec fn failure_text(original: Seq<char>) -> Seq<char> {
    "User lookup failed for "@ + original
}

/// Whether a card renders a given record.
pub open spec fn card_matches(c: AttachmentCard, r: DirectoryRecord) -> bool {
    c.color@ == brand_color() && c.author_name@ == author_line(r.display_name@, r.id@)
        && c.author_icon@ == r.avatar_url@
}

/// Whether a message reports a successful lookup of the given records: no
/// text, and one card per record, in the same order.  Zero records give an
/// empty-attachments success message, not a failure.
pub open spec fn is_success_message(m: OutboundMessage, records: Seq<DirectoryRecord>) -> bool {
    m.response_type@ == in_channel() && m.text@ == Seq::<char>::empty() && m.attachments@.len()
        == records.len() && (forall|i: int|
        0 <= i < records.len() ==> card_matches(#[trigger] m.attachments@[i], records[i]))
}

/// Whether a message reports a failed lookup of the given command text: the
/// failure text and no cards.
pub open spec fn is_failure_message(m: OutboundMessage, original: Seq<char>) -> bool {
    m.response_type@ == in_channel() && m.text@ == failure_text(original) && m.attachments@.len()
        == 0
}

/// Everything observable about a card.
pub open spec fn card_view(c: AttachmentCard) -> (Seq<char>, Seq<char>, Seq<char>) {
    (c.color@, c.author_name@, c.author_icon@)
}

/// Everything observable about an outbound message.
pub open spec fn message_view(m: OutboundMessage) -> (
    Seq<char>,
    Seq<char>,
    Seq<(Seq<char>, Seq<char>, Seq<char>)>,
) {
    (m.response_type@, m.text@, m.attachments@.map_values(|c: AttachmentCard| card_view(c)))
}

/// Formatting a success is a pure function of the records: any two messages
/// that render the same records are observably identical.
pub proof fn lemma_success_formatting_deterministic(
    m1: OutboundMessage,
    m2: OutboundMessage,
    records: Seq<DirectoryRecord>,
)
    requires
        is_success_message(m1, records),
        is_success_message(m2, records),
    ensures
        message_view(m1) == message_view(m2),
{
    assert(m1.attachments@.map_values(|c: AttachmentCard| card_view(c)) =~= m2.attachments@
        .map_values(|c: AttachmentCard| card_view(c)));
}

/// Formatting a failure is a pure function of the command text: any two
/// messages that report a failure for the same text are observably
/// identical.
pub proof fn lemma_failure_formatting_deterministic(
    m1: OutboundMessage,
    m2: OutboundMessage,
    original: Seq<char>,
)
    requires
        is_failure_message(m1, original),
        is_failure_message(m2, original),
    ensures
        message_view(m1) == message_view(m2),
{
    assert(m1.attachments@.map_values(|c: AttachmentCard| card_view(c)) =~= m2.attachments@
        .map_values(|c: AttachmentCard| card_view(c)));
}

/// The one message reported when a lookup failed, whatever the cause.
pub fn failure_message(original_text: &str) -> (m: OutboundMessage)
    ensures
        is_failure_message(m, original_text@),
{
    let mut text = String::from_str("User lookup failed for ");
    text.append(original_text);
    OutboundMessage {
        response_type: String::from_str("in_channel"),
        text,
        attachments: Vec::new(),
    }
}

/// Renders one card for one record: the brand color, the record's display
/// name and id as the author line, and its avatar as the author icon.
fn card_for(r: &DirectoryRecord) -> (c: AttachmentCard)
    ensures
        card_matches(c, *r),
{
    let mut author_name = r.display_name.clone();
    author_name.append(": ");
    author_name.append(r.id.as_str());
    AttachmentCard {
        color: String::from_str("#73535ad"),
        author_name,
        author_icon: r.avatar_url.clone(),
    }
}

/// Maps a lookup outcome to the outbound message.
///
/// A record list — empty or not — yields a success message with one card
/// per record in the same order and no text; any failure yields the generic
/// failure text for the original command and no cards.  Formatting itself
/// never fails.
pub fn format(outcome: Result<DirectoryResult, DirectoryError>, original_text: &str) -> (m:
    OutboundMessage)
    ensures
        (match outcome {
            Ok(d) => is_success_message(m, d.records@),
            Err(_) => is_failure_message(m, original_text@),
        }),
{
    match outcome {
        Ok(d) => {
            let mut cards: Vec<AttachmentCard> = Vec::new();
            let mut k: usize = 0;
            while k < d.records.len()
                invariant
                    k <= d.records@.len(),
                    cards@.len() == k,
                    forall|i: int|
                        0 <= i < k ==> card_matches(#[trigger] cards@[i], d.records@[i]),
                decreases d.records@.len() - k,
            {
                let card = card_for(&d.records[k]);
                cards.push(card);
                k += 1;
            }
            OutboundMessage {
                response_type: String::from_str("in_channel"),
                text: String::new(),
                attachments: cards,
            }
        },
        Err(_) => failure_message(original_text),
    }
}

} // verus!
