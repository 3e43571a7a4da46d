//! Reading one line of EVE output.

use crate::text::{replace, same_text, split_once, take_before, take_second};
use vstd::prelude::*;
use vstd::utf8::*;

verus! {

/// What stands before the type of an event in compact JSON.
pub const COMPACT_TYPE: &'static str = ",\"event_type\":\"";

/// What stands before the type of an event in JSON with spaces after its punctuation.
pub const SPACED_TYPE: &'static str = ", \"event_type\": \"";

/// What ends a JSON string.
pub const QUOTE: &'static str = "\"";

/// How JSON writes a null byte, which PostgreSQL does not store.
pub const ESCAPED_NULL: &'static str = "\\u0000";

/// What is stored in place of a null byte.
pub const STORED_NULL: &'static str = "<NULL>";

/// The names of the event types that have a table of their own.
pub const FLOW: &'static str = "flow";

pub const ALERT: &'static str = "alert";

pub const STATS: &'static str = "stats";

/// The table that an event goes to.
#[derive(Debug, Clone, Copy, PartialEq, Eq, Structural)]
pub enum EventKind {
    Flow,
    Alert,
    Stats,
    Other,
}

/// One event: its type, and its JSON as it is stored.
#[derive(Debug)]
pub struct EveEvent {
    pub type_: String,
    pub data: String,
}

/// The type that the line `text` gives: what follows the compact marker, or else the spaced one,
/// up to the closing quote. A line with neither marker has the empty type.
pub open spec fn event_type_spec(text: Seq<char>) -> Seq<char> {
    let from_type = match crate::text::split_once_spec(text, COMPACT_TYPE@) {
        Some((_, after)) => after,
        None => crate::text::second_piece(text, SPACED_TYPE@),
    };
    crate::text::before_first(from_type, QUOTE@)
}

/// `text` with every escaped null byte replaced.
pub open spec fn stored_text(text: Seq<char>) -> Seq<char> {
    crate::text::replace_spec(text, ESCAPED_NULL@, STORED_NULL@)
}

/// The table for an event of type `type_`.
pub open spec fn kind_of(type_: Seq<char>) -> EventKind {
    if type_ == FLOW@ {
        EventKind::Flow
    } else if type_ == ALERT@ {
        EventKind::Alert
    } else if type_ == STATS@ {
        EventKind::Stats
    } else {
        EventKind::Other
    }
}

impl EveEvent {
    /// The table that the event goes to.
    pub open spec fn spec_kind(self) -> EventKind {
        kind_of(self.type_@)
    }

    /// The event that the line `text` of EVE output stands for.
    pub fn from_text(text: &str) -> (event: EveEvent)
        ensures
            event.type_@ == event_type_spec(text@),
            event.data@ == stored_text(text@),
    {
        proof {
            lemma_literals();
        }
        EveEvent {
            type_: event_type(text).to_owned(),
            data: replace(text, ESCAPED_NULL, STORED_NULL),
        }
    }

    /// The table that the event goes to.
    pub fn kind(&self) -> (kind: EventKind)
        ensures
            kind == self.spec_kind(),
    {
        let type_ = self.type_.as_str();
        if same_text(type_, FLOW) {
            EventKind::Flow
        } else if same_text(type_, ALERT) {
            EventKind::Alert
        } else if same_text(type_, STATS) {
            EventKind::Stats
        } else {
            EventKind::Other
        }
    }
}

/// The type that the line `text` gives, as a part of that line.
pub fn event_type(text: &str) -> (type_: &str)
    ensures
        type_@ == event_type_spec(text@),
{
    proof {
        lemma_literals();
    }
    let from_type = match split_once(text, COMPACT_TYPE) {
        Some((_before, after)) => after,
        None => take_second(text, SPACED_TYPE),
    };
    take_before(from_type, QUOTE)
}

/// The number of bytes, with the closing null byte, behind a line whose length Suricata gives as
/// `buffer_len`.
pub fn buffer_span(buffer_len: i32) -> (span: usize)
    ensures
        span == (if buffer_len < 0 {
            -buffer_len
        } else {
            buffer_len as int
        }) + 1,
{
    let magnitude: u32 = if buffer_len < 0 {
        (0 - (buffer_len as i64)) as u32
    } else {
        buffer_len as u32
    };
    (magnitude + 1) as usize
}

/// Whether the output can be opened: it takes the lines of one thread only.
pub fn output_init(threaded: bool) -> (status: Option<i32>)
    ensures
        status == if threaded {
            None::<i32>
        } else {
            Some(0i32)
        },
{
    if threaded {
        None
    } else {
        Some(0)
    }
}

/// No event is stored with an escaped null byte in it.
pub proof fn law_no_null_is_stored(text: Seq<char>)
    ensures
        !crate::text::occurs(stored_text(text), ESCAPED_NULL@),
{
    lemma_literals();
    crate::text::lemma_replace_leaves_none(text, ESCAPED_NULL@, STORED_NULL@);
}

/// An event without an escaped null byte is stored as it came.
pub proof fn law_other_text_is_stored_unchanged(text: Seq<char>)
    requires
        !crate::text::occurs(text, ESCAPED_NULL@),
    ensures
        stored_text(text) == text,
{
}

/// Storing what was stored once changes nothing.
pub proof fn law_storing_is_idempotent(text: Seq<char>)
    ensures
        stored_text(stored_text(text)) == stored_text(text),
{
    law_no_null_is_stored(text);
}

/// An event is stored in as many bytes as it came in.
pub proof fn law_storing_keeps_size(text: Seq<char>)
    ensures
        encode_utf8(stored_text(text)).len() == encode_utf8(text).len(),
{
    lemma_literals();
    is_ascii_chars_encode_utf8(ESCAPED_NULL@);
    is_ascii_chars_encode_utf8(STORED_NULL@);
    crate::text::lemma_replace_keeps_size(text, ESCAPED_NULL@, STORED_NULL@);
}

/// The type of an event holds no quote.
pub proof fn law_type_has_no_quote(text: Seq<char>)
    ensures
        forall|i: int|
            0 <= i < event_type_spec(text).len() ==> #[trigger] event_type_spec(text)[i] != QUOTE@[0],
{
    lemma_literals();
    let from_type = match crate::text::split_once_spec(text, COMPACT_TYPE@) {
        Some((_, after)) => after,
        None => crate::text::second_piece(text, SPACED_TYPE@),
    };
    crate::text::lemma_before_first_is_clean(from_type, QUOTE@);
    let t = event_type_spec(text);
    assert forall|i: int| 0 <= i < t.len() implies #[trigger] t[i] != QUOTE@[0] by {
        if t[i] == QUOTE@[0] {
            assert(t.subrange(i, i + 1) =~= QUOTE@);
            assert(crate::text::occurs_at(t, QUOTE@, i));
        }
    }
}

/// The type written behind the first compact marker of a line is the type read from that line.
pub proof fn law_compact_type_is_read_back(head: Seq<char>, type_: Seq<char>, tail: Seq<char>)
    requires
        !crate::text::occurs(type_, QUOTE@),
        crate::text::first_at(
            head + COMPACT_TYPE@ + type_ + QUOTE@ + tail,
            COMPACT_TYPE@,
            head.len() as int,
        ),
    ensures
        event_type_spec(head + COMPACT_TYPE@ + type_ + QUOTE@ + tail) == type_,
{
    lemma_literals();
    let text = head + COMPACT_TYPE@ + type_ + QUOTE@ + tail;
    crate::text::lemma_first_is_split_once(text, COMPACT_TYPE@, head.len() as int);
    assert(text.skip((head.len() + COMPACT_TYPE@.len()) as int) =~= type_ + QUOTE@ + tail);
    crate::text::lemma_value_before_mark(type_, QUOTE@, tail);
}

/// The type written behind the first spaced marker of a line that has no compact one is the type
/// read from that line, as long as no other spaced marker begins inside the type.
pub proof fn law_spaced_type_is_read_back(head: Seq<char>, type_: Seq<char>, tail: Seq<char>)
    requires
        !crate::text::occurs(type_, QUOTE@),
        !crate::text::occurs(head + SPACED_TYPE@ + type_ + QUOTE@ + tail, COMPACT_TYPE@),
        crate::text::first_at(
            head + SPACED_TYPE@ + type_ + QUOTE@ + tail,
            SPACED_TYPE@,
            head.len() as int,
        ),
        forall|j: int|
            0 <= j < type_.len() ==> !crate::text::occurs_at(
                type_ + QUOTE@ + tail,
                SPACED_TYPE@,
                j,
            ),
    ensures
        event_type_spec(head + SPACED_TYPE@ + type_ + QUOTE@ + tail) == type_,
{
    lemma_literals();
    crate::text::lemma_value_in_second_piece(head, SPACED_TYPE@, type_, QUOTE@, tail);
}

proof fn lemma_literals()
    ensures
        is_ascii_chars(COMPACT_TYPE@),
        COMPACT_TYPE@.len() > 0,
        is_ascii_chars(SPACED_TYPE@),
        SPACED_TYPE@.len() > 0,
        is_ascii_chars(QUOTE@),
        QUOTE@.len() == 1,
        is_ascii_chars(ESCAPED_NULL@),
        ESCAPED_NULL@.len() > 0,
        is_ascii_chars(STORED_NULL@),
        STORED_NULL@.len() == ESCAPED_NULL@.len(),
        forall|i: int, j: int|
            0 <= i < ESCAPED_NULL@.len() && 0 <= j < STORED_NULL@.len() ==> ESCAPED_NULL@[i]
                != STORED_NULL@[j],
{
    reveal_strlit(",\"event_type\":\"");
    reveal_strlit(", \"event_type\": \"");
    reveal_strlit("\"");
    reveal_strlit("\\u0000");
    reveal_strlit("<NULL>");
}

/// Every escaped null byte of a line is stored as the six characters `<NULL>` in its place, and
/// every other character of the line as it is.
pub proof fn law_only_nulls_are_rewritten(text: &str, event: EveEvent)
    requires
        call_ensures(EveEvent::from_text, (text,), event),
    ensures
        event.data@.len() == text@.len(),
        forall|p: int, k: int|
            #![trigger text@.skip(p), "<NULL>"@[k]]
            0 <= p <= text@.len() && "\\u0000"@.is_prefix_of(text@.skip(p)) && 0 <= k < 6
                ==> event.data@[p + k] == "<NULL>"@[k],
        forall|i: int|
            0 <= i < text@.len() && (forall|p: int|
                0 <= p <= i < p + 6 ==> !"\\u0000"@.is_prefix_of(#[trigger] text@.skip(p)))
                ==> #[trigger] event.data@[i] == text@[i],
{
    reveal_strlit("\\u0000");
    reveal_strlit("<NULL>");
    crate::text::lemma_replace_in_place(text@, "\\u0000"@, "<NULL>"@);
}

/// The type of a line with a compact marker is what stands behind the first one, up to the next
/// quote, or to the end of the line where none follows.
pub proof fn law_compact_type_is_what_stands_there(text: &str, event: EveEvent, i: int)
    requires
        call_ensures(EveEvent::from_text, (text,), event),
        0 <= i <= text@.len(),
        ",\"event_type\":\""@.is_prefix_of(text@.skip(i)),
        forall|j: int|
            0 <= j < i ==> !",\"event_type\":\""@.is_prefix_of(#[trigger] text@.skip(j)),
    ensures
        ({
            let start = i + 15;
            let end = start + event.type_@.len();
            &&& end <= text@.len()
            &&& event.type_@ == text@.subrange(start, end)
            &&& !event.type_@.contains('"')
            &&& end == text@.len() || text@[end] == '"'
        }),
{
    let marker = ",\"event_type\":\""@;
    reveal_strlit(",\"event_type\":\"");
    reveal_strlit("\"");
    crate::text::lemma_stands_first(text@, marker, i);
    crate::text::lemma_first_is_split_once(text@, marker, i);
    let rest = text@.skip(i + 15);
    crate::text::lemma_before_first_ends(rest, "\""@);
    let end = i + 15 + event.type_@.len();
    assert(event.type_@ =~= text@.subrange(i + 15, end));
}

/// The type of a line with a spaced marker and no compact one is what stands behind the first
/// spaced one, up to the next quote or the next such marker, or to the end of the line.
pub proof fn law_spaced_type_is_what_stands_there(text: &str, event: EveEvent, i: int)
    requires
        call_ensures(EveEvent::from_text, (text,), event),
        forall|j: int|
            0 <= j <= text@.len() ==> !",\"event_type\":\""@.is_prefix_of(
                #[trigger] text@.skip(j),
            ),
        0 <= i <= text@.len(),
        ", \"event_type\": \""@.is_prefix_of(text@.skip(i)),
        forall|j: int|
            0 <= j < i ==> !", \"event_type\": \""@.is_prefix_of(#[trigger] text@.skip(j)),
    ensures
        ({
            let start = i + 17;
            let end = start + event.type_@.len();
            &&& end <= text@.len()
            &&& event.type_@ == text@.subrange(start, end)
            &&& !event.type_@.contains('"')
            &&& forall|j: int|
                start <= j < end ==> !", \"event_type\": \""@.is_prefix_of(
                    #[trigger] text@.skip(j),
                )
            &&& end == text@.len() || text@[end] == '"' || ", \"event_type\": \""@.is_prefix_of(
                text@.skip(end),
            )
        }),
{
    let marker = ", \"event_type\": \""@;
    reveal_strlit(", \"event_type\": \"");
    reveal_strlit("\"");
    crate::text::lemma_stands_nowhere(text@, ",\"event_type\":\""@);
    crate::text::lemma_stands_first(text@, marker, i);
    crate::text::lemma_value_behind_marker(text@, marker, i, "\""@);
}

/// A line without either marker has the empty type.
pub proof fn law_line_without_marker_has_no_type(text: &str, event: EveEvent)
    requires
        call_ensures(EveEvent::from_text, (text,), event),
        forall|j: int|
            0 <= j <= text@.len() ==> !",\"event_type\":\""@.is_prefix_of(
                #[trigger] text@.skip(j),
            ) && !", \"event_type\": \""@.is_prefix_of(text@.skip(j)),
    ensures
        event.type_@.len() == 0,
{
    crate::text::lemma_stands_nowhere(text@, ",\"event_type\":\""@);
    crate::text::lemma_stands_nowhere(text@, ", \"event_type\": \""@);
    reveal_strlit(", \"event_type\": \"");
    reveal_strlit("\"");
    crate::text::lemma_before_first_ends(Seq::empty(), "\""@);
}

/// The type of the event is the type that the line gives.
pub proof fn law_event_has_the_type_of_its_line(text: &str, event: EveEvent, type_: &str)
    requires
        call_ensures(EveEvent::from_text, (text,), event),
        call_ensures(event_type, (text,), type_),
    ensures
        event.type_@ == type_@,
{
}

/// An event goes to the table that bears the name of its type, and to that of other events where
/// none does.
pub proof fn law_type_names_the_table(event: &EveEvent, kind: EventKind)
    requires
        call_ensures(EveEvent::kind, (event,), kind),
    ensures
        kind == EventKind::Flow <==> event.type_@ == "flow"@,
        kind == EventKind::Alert <==> event.type_@ == "alert"@,
        kind == EventKind::Stats <==> event.type_@ == "stats"@,
        kind == EventKind::Other <==> event.type_@ != "flow"@ && event.type_@ != "alert"@
            && event.type_@ != "stats"@,
{
    lemma_kinds(event.type_@);
}

/// The kinds, by the names of the types.
pub proof fn lemma_kinds(type_: Seq<char>)
    ensures
        kind_of(type_) == EventKind::Flow <==> type_ == "flow"@,
        kind_of(type_) == EventKind::Alert <==> type_ == "alert"@,
        kind_of(type_) == EventKind::Stats <==> type_ == "stats"@,
{
    reveal_strlit("flow");
    reveal_strlit("alert");
    reveal_strlit("stats");
    assert("alert"@[0] == 'a' && "stats"@[0] == 's');
}

/// The span of a line is its length and one byte more for the closing null byte, whichever sign the
/// length is given with.
pub proof fn law_span_holds_the_line_and_its_end(buffer_len: i32, span: usize)
    requires
        call_ensures(buffer_span, (buffer_len,), span),
    ensures
        span >= 1,
        span - 1 == buffer_len || span - 1 == -buffer_len,
{
}

/// The output is opened for one thread, with status 0, and never for several.
pub proof fn law_only_one_thread_is_served(threaded: bool, status: Option<i32>)
    requires
        call_ensures(output_init, (threaded,), status),
    ensures
        status is None <==> threaded,
        status is Some ==> status->0 == 0,
{
}

} // verus!
