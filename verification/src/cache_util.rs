//! The keys under which answers are cached.
use crate::name;
use crate::name::Name;
use crate::text;
use vstd::prelude::*;

verus! {

/// The key for a name in presentation form and a record type: the name in lower case and
/// without trailing dots, a bar, the type code in decimal.
pub open spec fn key_text(ascii: Seq<char>, qtype: u16) -> Seq<char> {
    text::lower(text::trim_dots(ascii)).push('|') + text::decimal(qtype as nat)
}

/// The key for a name and a record type. It is that of the lower-cased name.
pub open spec fn cache_key(labels: Seq<Seq<u8>>, qtype: u16) -> Seq<char> {
    key_text(name::name_ascii(name::lower_labels(labels)), qtype)
}

/// The cache key for a name in presentation form and a record type.
pub fn key_for_ascii(ascii: &str, qtype: u16) -> (r: String)
    requires
        text::is_ascii_text(ascii@),
    ensures
        r@ == key_text(ascii@, qtype),
{
    let mut key = text::normalize(ascii);
    key.push('|');
    text::push_decimal(&mut key, qtype);
    key
}

/// The cache key for a name and a record type.
pub fn make_cache_key(name: &Name, qtype: u16) -> (r: String)
    requires
        name.wf(),
    ensures
        r@ == key_text(name::name_ascii(name@), qtype),
        r@ == cache_key(name@, qtype),
{
    let ascii = name::to_ascii(name);
    proof {
        name::law_presentation_is_ascii(name@);
        text::lemma_lower_trim(ascii@);
        text::lemma_lower_trim(text::lower(ascii@));
        text::lemma_lower_idempotent(ascii@);
    }
    key_for_ascii(ascii.as_str(), qtype)
}

/// Names that differ at most in the case of ASCII letters share their cache keys.
pub proof fn law_same_name_same_key(a: Seq<Seq<u8>>, b: Seq<Seq<u8>>, qtype: u16)
    requires
        name::same_name(a, b),
    ensures
        cache_key(a, qtype) == cache_key(b, qtype),
{
}

/// A key tells the record type, and the text in lower case without trailing dots.
proof fn lemma_key_tells_text_and_type(a: Seq<char>, s: u16, b: Seq<char>, t: u16)
    requires
        key_text(a, s) == key_text(b, t),
    ensures
        s == t,
        text::lower(text::trim_dots(a)) == text::lower(text::trim_dots(b)),
{
    let (x, y) = (text::lower(text::trim_dots(a)), text::lower(text::trim_dots(b)));
    let (c, d) = (text::decimal(s as nat), text::decimal(t as nat));
    let key = key_text(a, s);
    text::lemma_decimal_digits(s as nat);
    text::lemma_decimal_digits(t as nat);
    let (l, m) = (x.push('|'), y.push('|'));
    assert(key == l + c && key == m + d);
    assert(l.len() == x.len() + 1 && m.len() == y.len() + 1);
    assert(key.len() == l.len() + c.len() && key.len() == m.len() + d.len());
    assert(key[x.len() as int] == l[x.len() as int]);
    assert(key[y.len() as int] == m[y.len() as int]);
    if x.len() < y.len() {
        assert((l + c)[y.len() as int] == c[y.len() - l.len()]);
    }
    if y.len() < x.len() {
        assert((m + d)[x.len() as int] == d[x.len() - m.len()]);
    }
    assert(x =~= key.take(x.len() as int));
    assert(y =~= key.take(x.len() as int));
    assert(c =~= key.skip(x.len() as int + 1));
    assert(d =~= key.skip(x.len() as int + 1));
    text::lemma_decimal_injective(s as nat, t as nat);
}

/// No two different questions share a key: the keys are equal if and only if the record types are,
/// and the names differ at most in the case of ASCII letters.
pub proof fn law_key_tells_name_and_type(a: Seq<Seq<u8>>, s: u16, b: Seq<Seq<u8>>, t: u16)
    requires
        name::valid_labels(a),
        name::valid_labels(b),
    ensures
        cache_key(a, s) == cache_key(b, t) <==> s == t && name::same_name(a, b),
{
    let (x, y) = (name::lower_labels(a), name::lower_labels(b));
    if cache_key(a, s) == cache_key(b, t) {
        lemma_key_tells_text_and_type(name::name_ascii(x), s, name::name_ascii(y), t);
        lemma_lowered(a);
        lemma_lowered(b);
        name::law_presentation_tells_the_name(x, y);
    }
}

proof fn lemma_lowered(labels: Seq<Seq<u8>>)
    requires
        name::valid_labels(labels),
    ensures
        name::no_empty_label(name::lower_labels(labels)),
        text::lower(text::trim_dots(name::name_ascii(name::lower_labels(labels))))
            == text::trim_dots(name::name_ascii(name::lower_labels(labels))),
{
    let low = name::lower_labels(labels);
    assert forall|i: int| 0 <= i < low.len() implies (#[trigger] low[i]).len() > 0 by {
        assert(labels[i].len() >= 1);
    }
    name::law_presentation_is_ascii(low);
    name::lemma_lower_labels_idempotent(labels);
    text::lemma_lower_trim(name::name_ascii(low));
}

/// The key for a host name is its labels in lower case with dots between them, a bar, and digits
/// that stand for the type code.
pub proof fn law_host_names_are_their_keys(labels: Seq<Seq<u8>>, qtype: u16)
    requires
        labels.len() > 0,
        forall|i: int| 0 <= i < labels.len() ==> name::is_host_label(#[trigger] labels[i]),
    ensures
        ({
            let host = text::lower(name::host_text(labels));
            let key = cache_key(labels, qtype);
            &&& key.len() > host.len() + 1
            &&& key.take(host.len() as int) == host
            &&& key[host.len() as int] == '|'
            &&& text::decimal_value(key.skip(host.len() as int + 1)) == qtype
        }),
{
    let ascii = name::name_ascii(labels);
    name::law_presentation_is_ascii(labels);
    name::law_host_names_read_as_they_are(labels);
    text::lemma_lower_trim(ascii);
    text::lemma_lower_trim(text::lower(ascii));
    text::lemma_lower_idempotent(ascii);
    let host = text::lower(name::host_text(labels));
    let key = cache_key(labels, qtype);
    text::law_decimal_stands_for_the_number(qtype as nat);
    assert(key == host.push('|') + text::decimal(qtype as nat));
    assert(key.take(host.len() as int) =~= host);
    assert(key.skip(host.len() as int + 1) =~= text::decimal(qtype as nat));
}

} // verus!
