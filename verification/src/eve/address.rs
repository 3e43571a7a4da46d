//! The addresses of a flow, as they are stored.

use crate::eve::event::QUOTE;
use crate::text::{take_before, take_second};
use vstd::prelude::*;
use vstd::utf8::*;

verus! {

/// What stands before the source address of an event.
pub const SRC_IP: &'static str = ",\"src_ip\":\"";

/// What stands before the destination address of an event.
pub const DEST_IP: &'static str = ",\"dest_ip\":\"";

/// What stands around an IPv6 address.
pub const OPEN: &'static str = "[";

pub const CLOSE: &'static str = "]";

/// What a text is when it is read as an IP address: the address in its canonical form, or no
/// address at all.
#[derive(Debug)]
pub enum IpReading {
    V4(String),
    V6(String),
    NotAnAddress,
}

/// The source address of the event `buf`, as it stands there.
pub open spec fn src_ip_spec(buf: Seq<char>) -> Seq<char> {
    crate::text::before_first(crate::text::second_piece(buf, SRC_IP@), QUOTE@)
}

/// The destination address of the event `buf`, as it stands there.
pub open spec fn dest_ip_spec(buf: Seq<char>) -> Seq<char> {
    crate::text::before_first(crate::text::second_piece(buf, DEST_IP@), QUOTE@)
}

impl IpReading {
    /// How the address is stored: an IPv6 address in brackets, and `otherwise` where there is no
    /// address.
    pub open spec fn stored(self, otherwise: Seq<char>) -> Seq<char> {
        match self {
            IpReading::V4(ip) => ip@,
            IpReading::V6(ip) => OPEN@ + ip@ + CLOSE@,
            IpReading::NotAnAddress => otherwise,
        }
    }

    /// The text is an address.
    pub open spec fn is_address(self) -> bool {
        self !is NotAnAddress
    }

    /// The canonical form of an address.
    pub open spec fn text(self) -> Seq<char> {
        match self {
            IpReading::V4(ip) => ip@,
            IpReading::V6(ip) => ip@,
            IpReading::NotAnAddress => Seq::empty(),
        }
    }

    /// How the address is stored.
    fn into_stored(self, otherwise: &str) -> (r: String)
        ensures
            r@ == self.stored(otherwise@),
    {
        match self {
            IpReading::V4(ip) => ip,
            IpReading::V6(ip) => OPEN.to_owned().concat(ip.as_str()).concat(CLOSE),
            IpReading::NotAnAddress => otherwise.to_owned(),
        }
    }
}

/// The source address of the event `buf`, as it stands there.
pub fn src_ip_text(buf: &str) -> (ip: &str)
    ensures
        ip@ == src_ip_spec(buf@),
{
    proof {
        lemma_literals();
    }
    take_before(take_second(buf, SRC_IP), QUOTE)
}

/// The destination address of the event `buf`, as it stands there.
pub fn dest_ip_text(buf: &str) -> (ip: &str)
    ensures
        ip@ == dest_ip_spec(buf@),
{
    proof {
        lemma_literals();
    }
    take_before(take_second(buf, DEST_IP), QUOTE)
}

/// The two addresses of the event `buf` as they are stored, where `src` and `dest` are what
/// [`src_ip_text`] and [`dest_ip_text`] read as. The text of the source stands in for both where
/// there is no address.
pub fn sc_ip_format(buf: &str, src: IpReading, dest: IpReading) -> (r: (String, String))
    ensures
        r.0@ == src.stored(src_ip_spec(buf@)),
        r.1@ == dest.stored(src_ip_spec(buf@)),
{
    let src_ip = src_ip_text(buf);
    (src.into_stored(src_ip), dest.into_stored(src_ip))
}

/// The source address written behind the first source marker of an event is the one read from it,
/// as long as no other source marker begins inside the address.
pub proof fn law_src_ip_is_read_back(head: Seq<char>, ip: Seq<char>, tail: Seq<char>)
    requires
        !crate::text::occurs(ip, QUOTE@),
        crate::text::first_at(head + SRC_IP@ + ip + QUOTE@ + tail, SRC_IP@, head.len() as int),
        forall|j: int|
            0 <= j < ip.len() ==> !crate::text::occurs_at(ip + QUOTE@ + tail, SRC_IP@, j),
    ensures
        src_ip_spec(head + SRC_IP@ + ip + QUOTE@ + tail) == ip,
{
    lemma_literals();
    crate::text::lemma_value_in_second_piece(head, SRC_IP@, ip, QUOTE@, tail);
}

/// The destination address written behind the first destination marker of an event is the one read
/// from it, as long as no other destination marker begins inside the address.
pub proof fn law_dest_ip_is_read_back(head: Seq<char>, ip: Seq<char>, tail: Seq<char>)
    requires
        !crate::text::occurs(ip, QUOTE@),
        crate::text::first_at(head + DEST_IP@ + ip + QUOTE@ + tail, DEST_IP@, head.len() as int),
        forall|j: int|
            0 <= j < ip.len() ==> !crate::text::occurs_at(ip + QUOTE@ + tail, DEST_IP@, j),
    ensures
        dest_ip_spec(head + DEST_IP@ + ip + QUOTE@ + tail) == ip,
{
    lemma_literals();
    crate::text::lemma_value_in_second_piece(head, DEST_IP@, ip, QUOTE@, tail);
}

/// The first bracket tells what was stored: an IPv6 address begins with one, and an IPv4 address
/// does not, unless its own text does.
pub proof fn law_bracket_marks_ipv6(reading: IpReading, otherwise: Seq<char>)
    requires
        reading.is_address(),
        reading is V4 ==> !OPEN@.is_prefix_of(reading.text()),
    ensures
        reading is V6 <==> OPEN@.is_prefix_of(reading.stored(otherwise)),
{
    lemma_brackets();
    if reading is V6 {
        assert(reading.stored(otherwise).subrange(0, 1) =~= OPEN@);
    }
}

/// The address is what is stored, once the brackets of an IPv6 address are taken away.
pub proof fn law_address_is_kept(reading: IpReading, otherwise: Seq<char>)
    requires
        reading.is_address(),
    ensures
        ({
            let stored = reading.stored(otherwise);
            reading.text() == if reading is V6 {
                stored.subrange(OPEN@.len() as int, stored.len() - CLOSE@.len())
            } else {
                stored
            }
        }),
{
    lemma_brackets();
    let stored = reading.stored(otherwise);
    if reading is V6 {
        assert(reading.text() =~= stored.subrange(1, stored.len() - 1));
    }
}

/// Two addresses are stored the same exactly where they are of one kind and have one text, as long
/// as the text of no IPv4 address begins with a bracket.
pub proof fn law_stored_addresses_tell_apart(
    a: IpReading,
    b: IpReading,
    otherwise_a: Seq<char>,
    otherwise_b: Seq<char>,
)
    requires
        a.is_address(),
        b.is_address(),
        a is V4 ==> !OPEN@.is_prefix_of(a.text()),
        b is V4 ==> !OPEN@.is_prefix_of(b.text()),
    ensures
        a.stored(otherwise_a) == b.stored(otherwise_b) <==> (a is V6 <==> b is V6) && a.text()
            == b.text(),
{
    law_bracket_marks_ipv6(a, otherwise_a);
    law_bracket_marks_ipv6(b, otherwise_b);
    law_address_is_kept(a, otherwise_a);
    law_address_is_kept(b, otherwise_b);
}

proof fn lemma_brackets()
    ensures
        OPEN@.len() == 1,
        CLOSE@.len() == 1,
{
    reveal_strlit("[");
    reveal_strlit("]");
}

proof fn lemma_literals()
    ensures
        is_ascii_chars(SRC_IP@),
        SRC_IP@.len() > 0,
        is_ascii_chars(DEST_IP@),
        DEST_IP@.len() > 0,
        is_ascii_chars(QUOTE@),
        QUOTE@.len() == 1,
{
    reveal_strlit(",\"src_ip\":\"");
    reveal_strlit(",\"dest_ip\":\"");
    reveal_strlit("\"");
}

/// The source text of an event is what stands behind the first source marker, up to the next quote
/// or the next such marker, or to the end of the event.
pub proof fn law_src_ip_is_what_stands_there(buf: &str, ip: &str, i: int)
    requires
        call_ensures(src_ip_text, (buf,), ip),
        0 <= i <= buf@.len(),
        ",\"src_ip\":\""@.is_prefix_of(buf@.skip(i)),
        forall|j: int| 0 <= j < i ==> !",\"src_ip\":\""@.is_prefix_of(#[trigger] buf@.skip(j)),
    ensures
        ({
            let start = i + 11;
            let end = start + ip@.len();
            &&& end <= buf@.len()
            &&& ip@ == buf@.subrange(start, end)
            &&& !ip@.contains('"')
            &&& forall|j: int|
                start <= j < end ==> !",\"src_ip\":\""@.is_prefix_of(#[trigger] buf@.skip(j))
            &&& end == buf@.len() || buf@[end] == '"' || ",\"src_ip\":\""@.is_prefix_of(
                buf@.skip(end),
            )
        }),
{
    let marker = ",\"src_ip\":\""@;
    reveal_strlit(",\"src_ip\":\"");
    reveal_strlit("\"");
    crate::text::lemma_stands_first(buf@, marker, i);
    crate::text::lemma_value_behind_marker(buf@, marker, i, "\""@);
}

/// An event without a source marker has the empty source text.
pub proof fn law_no_src_ip_is_made_up(buf: &str, ip: &str)
    requires
        call_ensures(src_ip_text, (buf,), ip),
        forall|j: int|
            0 <= j <= buf@.len() ==> !",\"src_ip\":\""@.is_prefix_of(#[trigger] buf@.skip(j)),
    ensures
        ip@.len() == 0,
{
    crate::text::lemma_stands_nowhere(buf@, ",\"src_ip\":\""@);
    reveal_strlit(",\"src_ip\":\"");
    reveal_strlit("\"");
    crate::text::lemma_before_first_ends(Seq::empty(), "\""@);
}

/// The destination text of an event is what stands behind the first destination marker, up to the next quote
/// or the next such marker, or to the end of the event.
pub proof fn law_dest_ip_is_what_stands_there(buf: &str, ip: &str, i: int)
    requires
        call_ensures(dest_ip_text, (buf,), ip),
        0 <= i <= buf@.len(),
        ",\"dest_ip\":\""@.is_prefix_of(buf@.skip(i)),
        forall|j: int| 0 <= j < i ==> !",\"dest_ip\":\""@.is_prefix_of(#[trigger] buf@.skip(j)),
    ensures
        ({
            let start = i + 12;
            let end = start + ip@.len();
            &&& end <= buf@.len()
            &&& ip@ == buf@.subrange(start, end)
            &&& !ip@.contains('"')
            &&& forall|j: int|
                start <= j < end ==> !",\"dest_ip\":\""@.is_prefix_of(#[trigger] buf@.skip(j))
            &&& end == buf@.len() || buf@[end] == '"' || ",\"dest_ip\":\""@.is_prefix_of(
                buf@.skip(end),
            )
        }),
{
    let marker = ",\"dest_ip\":\""@;
    reveal_strlit(",\"dest_ip\":\"");
    reveal_strlit("\"");
    crate::text::lemma_stands_first(buf@, marker, i);
    crate::text::lemma_value_behind_marker(buf@, marker, i, "\""@);
}

/// An event without a destination marker has the empty destination text.
pub proof fn law_no_dest_ip_is_made_up(buf: &str, ip: &str)
    requires
        call_ensures(dest_ip_text, (buf,), ip),
        forall|j: int|
            0 <= j <= buf@.len() ==> !",\"dest_ip\":\""@.is_prefix_of(#[trigger] buf@.skip(j)),
    ensures
        ip@.len() == 0,
{
    crate::text::lemma_stands_nowhere(buf@, ",\"dest_ip\":\""@);
    reveal_strlit(",\"dest_ip\":\"");
    reveal_strlit("\"");
    crate::text::lemma_before_first_ends(Seq::empty(), "\""@);
}

/// An address is stored in its canonical form, an IPv6 address between brackets. The source text
/// of the event is stored for an end that has no address, whichever end it is.
pub proof fn law_addresses_are_stored_as_read(
    buf: &str,
    src: IpReading,
    dest: IpReading,
    r: (String, String),
    src_text: &str,
)
    requires
        call_ensures(sc_ip_format, (buf, src, dest), r),
        call_ensures(src_ip_text, (buf,), src_text),
    ensures
        match src {
            IpReading::V4(ip) => r.0@ == ip@,
            IpReading::V6(ip) => r.0@ == seq!['['] + ip@ + seq![']'],
            IpReading::NotAnAddress => r.0@ == src_text@,
        },
        match dest {
            IpReading::V4(ip) => r.1@ == ip@,
            IpReading::V6(ip) => r.1@ == seq!['['] + ip@ + seq![']'],
            IpReading::NotAnAddress => r.1@ == src_text@,
        },
{
    reveal_strlit("[");
    reveal_strlit("]");
    assert("["@ =~= seq!['[']);
    assert("]"@ =~= seq![']']);
}

} // verus!
