//! The list of domains that are not resolved.
use crate::name;
use crate::name::Name;
use crate::text;
use vstd::prelude::*;

verus! {

/// An entry of the list covers a domain: the domain is the entry, or one below it.
pub open spec fn covers(entry: Seq<char>, domain: Seq<char>) -> bool {
    ||| domain == entry
    ||| {
        &&& domain.len() > entry.len()
        &&& domain[domain.len() - entry.len() - 1] == '.'
        &&& domain.skip(domain.len() - entry.len()) == entry
    }
}

/// Some entry of the list covers a domain.
pub open spec fn blocked(list: Seq<String>, domain: Seq<char>) -> bool {
    exists|i: int| 0 <= i < list.len() && covers((#[trigger] list[i])@, domain)
}

/// The domain that a name in presentation form is matched by.
pub open spec fn domain_of(ascii: Seq<char>) -> Seq<char> {
    text::lower(text::trim_dots(ascii))
}

/// The list blocks a name. Names in lower case decide.
pub open spec fn blocked_name(list: Seq<String>, labels: Seq<Seq<u8>>) -> bool {
    blocked(list, domain_of(name::name_ascii(name::lower_labels(labels))))
}

/// Whether an entry covers a domain, both given by their characters.
fn entry_covers(entry: &Vec<char>, domain: &Vec<char>) -> (r: bool)
    ensures
        r == covers(entry@, domain@),
{
    let (n, m) = (entry.len(), domain.len());
    if m < n {
        return false;
    }
    for i in 0..n
        invariant
            n == entry@.len(),
            m == domain@.len(),
            n <= m,
            forall|j: int| 0 <= j < i ==> entry@[j] == domain@[m - n + j],
    {
        if entry[i] != domain[m - n + i] {
            assert(domain@.skip(m - n)[i as int] != entry@[i as int]);
            assert(domain@ == entry@ ==> m == n);
            return false;
        }
    }
    assert(domain@.skip(m - n) =~= entry@);
    assert(m == n ==> domain@ =~= entry@);
    m == n || domain[m - n - 1] == '.'
}

/// Whether the list blocks a name in presentation form.
pub fn blocked_ascii(ascii: &str, blocklist: &Vec<String>) -> (r: bool)
    requires
        text::is_ascii_text(ascii@),
    ensures
        r == blocked(blocklist@, domain_of(ascii@)),
{
    let domain = text::normalize(ascii);
    let domain = text::characters(domain.as_str());
    for i in 0..blocklist.len()
        invariant
            domain@ == domain_of(ascii@),
            forall|j: int| 0 <= j < i ==> !covers((#[trigger] blocklist@[j])@, domain@),
    {
        let entry = text::characters(blocklist[i].as_str());
        if entry_covers(&entry, &domain) {
            assert(covers(blocklist@[i as int]@, domain@));
            return true;
        }
    }
    false
}

/// Whether the list blocks a name.
pub fn blocked_packet(name: &Name, blocklist: &Vec<String>) -> (r: bool)
    requires
        name.wf(),
    ensures
        r == blocked(blocklist@, domain_of(name::name_ascii(name@))),
        r == blocked_name(blocklist@, name@),
{
    let ascii = name::to_ascii(name);
    proof {
        name::law_presentation_is_ascii(name@);
        text::lemma_lower_trim(ascii@);
        text::lemma_lower_trim(text::lower(ascii@));
        text::lemma_lower_idempotent(ascii@);
    }
    blocked_ascii(ascii.as_str(), blocklist)
}

/// A line of a blocklist file is an entry unless it begins with an `r`.
pub open spec fn is_entry(line: Seq<char>) -> bool {
    line.len() == 0 || line[0] != 'r'
}

/// Whether a line of a blocklist file is an entry.
pub fn is_blocklist_entry(line: &str) -> (r: bool)
    ensures
        r == is_entry(line@),
{
    let chars = text::characters(line);
    chars.len() == 0 || chars[0] != 'r'
}

/// Names that differ at most in the case of ASCII letters are blocked alike.
pub proof fn law_blocking_ignores_case(list: Seq<String>, a: Seq<Seq<u8>>, b: Seq<Seq<u8>>)
    requires
        name::same_name(a, b),
    ensures
        blocked_name(list, a) == blocked_name(list, b),
{
}

/// What is blocked stays blocked, with any label put in front of it.
pub proof fn law_subdomains_are_blocked(list: Seq<String>, label: Seq<char>, domain: Seq<char>)
    requires
        blocked(list, domain),
    ensures
        blocked(list, label.push('.') + domain),
{
    let i = choose|i: int| 0 <= i < list.len() && covers((#[trigger] list[i])@, domain);
    let entry = list[i]@;
    let below = label.push('.') + domain;
    assert(below.skip(below.len() - entry.len()) =~= domain.skip(domain.len() - entry.len()));
    if domain == entry {
        assert(domain.skip(0) =~= domain);
        assert(below[label.len() as int] == '.');
    } else {
        assert(below[below.len() - entry.len() - 1] == domain[domain.len() - entry.len() - 1]);
    }
    assert(covers(list[i]@, below));
}

/// A label in front of a name, in presentation form.
proof fn lemma_longer_domain(label: Seq<u8>, labels: Seq<Seq<u8>>)
    requires
        name::no_empty_label(labels),
        labels.len() > 0,
    ensures
        domain_of(name::name_ascii(seq![label] + labels)) == text::lower(
            name::label_ascii(label, true),
        ).push('.') + domain_of(name::name_ascii(labels)),
{
    let (head, tail) = (name::label_ascii(label, true).push('.'), name::name_ascii(labels));
    let longer = seq![label] + labels;
    assert(longer.drop_first() =~= labels);
    assert(name::name_ascii(longer) == head + tail);
    name::lemma_root_is_trimmed_away(labels);
    lemma_trim_tail(head, tail);
    assert(domain_of(head + tail) =~= text::lower(name::label_ascii(label, true)).push('.')
        + domain_of(tail));
}

/// Trailing dots come off the end of a text, as long as something is left of it.
proof fn lemma_trim_tail(head: Seq<char>, tail: Seq<char>)
    requires
        text::trim_dots(tail).len() > 0,
    ensures
        text::trim_dots(head + tail) == head + text::trim_dots(tail),
    decreases tail.len(),
{
    if tail.len() > 0 {
        assert((head + tail).last() == tail.last());
        if tail.last() == '.' {
            assert((head + tail).drop_last() =~= head + tail.drop_last());
            lemma_trim_tail(head, tail.drop_last());
        }
    }
}

/// What is below a blocked name is blocked: any labels may stand in front of it. (A list with an
/// empty entry in it blocks the root alone by that entry, not what is below.)
pub proof fn law_names_below_are_blocked(
    list: Seq<String>,
    front: Seq<Seq<u8>>,
    labels: Seq<Seq<u8>>,
)
    requires
        forall|i: int| 0 <= i < list.len() ==> (#[trigger] list[i])@.len() > 0,
        name::valid_labels(labels),
        name::no_empty_label(front),
        blocked_name(list, labels),
    ensures
        blocked_name(list, front + labels),
    decreases front.len(),
{
    let low = name::lower_labels(labels);
    assert forall|i: int| 0 <= i < low.len() implies (#[trigger] low[i]).len() > 0 by {
        assert(labels[i].len() >= 1);
    }
    if labels.len() == 0 {
        name::lemma_root_is_trimmed_away(low);
        let domain = domain_of(name::name_ascii(low));
        let i = choose|i: int| 0 <= i < list.len() && covers((#[trigger] list[i])@, domain);
        assert(list[i]@.len() > 0);
        assert(false);
    }
    if front.len() == 0 {
        assert(front + labels =~= labels);
    } else {
        let (label, rest) = (front[0], front.drop_first());
        assert forall|i: int| 0 <= i < rest.len() implies (#[trigger] rest[i]).len() > 0 by {
            assert(rest[i] == front[i + 1]);
        }
        law_names_below_are_blocked(list, rest, labels);
        let below = name::lower_labels(rest + labels);
        assert forall|i: int| 0 <= i < below.len() implies (#[trigger] below[i]).len() > 0 by {
            if i < rest.len() {
                assert(rest[i].len() > 0);
            } else {
                assert(labels[i - rest.len()].len() >= 1);
            }
        }
        lemma_longer_domain(name::lower_label(label), below);
        assert(name::lower_labels(front + labels) =~= seq![name::lower_label(label)] + below);
        law_subdomains_are_blocked(
            list,
            text::lower(name::label_ascii(name::lower_label(label), true)),
            domain_of(name::name_ascii(below)),
        );
    }
}

/// A longer list blocks no less.
pub proof fn law_longer_lists_block_no_less(
    list: Seq<String>,
    other: Seq<String>,
    domain: Seq<char>,
)
    requires
        forall|s: String| list.contains(s) ==> other.contains(s),
        blocked(list, domain),
    ensures
        blocked(other, domain),
{
    let i = choose|i: int| 0 <= i < list.len() && covers((#[trigger] list[i])@, domain);
    assert(list.contains(list[i]));
    let j = choose|j: int| 0 <= j < other.len() && other[j] == list[i];
    assert(covers(other[j]@, domain));
}

/// Neither the order of the entries nor how often one occurs matters.
pub proof fn law_blocking_needs_no_order(list: Seq<String>, other: Seq<String>, domain: Seq<char>)
    requires
        forall|s: String| list.contains(s) <==> other.contains(s),
    ensures
        blocked(list, domain) == blocked(other, domain),
{
    if blocked(list, domain) {
        law_longer_lists_block_no_less(list, other, domain);
    }
    if blocked(other, domain) {
        law_longer_lists_block_no_less(other, list, domain);
    }
}

/// Every entry of the list, whatever it is, blocks itself and every text that ends with a dot and
/// the entry.
pub proof fn law_entries_block_themselves_and_what_is_below(
    list: Seq<String>,
    i: int,
    front: Seq<char>,
)
    requires
        0 <= i < list.len(),
    ensures
        blocked(list, list[i]@),
        blocked(list, front.push('.') + list[i]@),
{
    let entry = list[i]@;
    let below = front.push('.') + entry;
    assert(below.skip(below.len() - entry.len()) =~= entry);
    assert(below[front.len() as int] == '.');
    assert(covers(list[i]@, entry));
    assert(covers(list[i]@, below));
}

/// Nothing else is blocked: a domain that the list blocks is an entry, or ends with a dot and an
/// entry.
pub proof fn law_only_entries_and_what_is_below_is_blocked(list: Seq<String>, domain: Seq<char>)
    requires
        blocked(list, domain),
    ensures
        exists|i: int|
            0 <= i < list.len() && {
                ||| domain == (#[trigger] list[i])@
                ||| exists|front: Seq<char>| domain == #[trigger] front.push('.') + list[i]@
            },
{
    let i = choose|i: int| 0 <= i < list.len() && covers((#[trigger] list[i])@, domain);
    let entry = list[i]@;
    if domain != entry {
        let front = domain.take(domain.len() - entry.len() - 1);
        assert(domain =~= front.push('.') + domain.skip(domain.len() - entry.len()));
        assert(domain == front.push('.') + entry);
    }
}

/// A host name is blocked exactly if its labels in lower case, with dots between them, are.
pub proof fn law_host_names_are_matched_as_they_are(list: Seq<String>, labels: Seq<Seq<u8>>)
    requires
        labels.len() > 0,
        forall|i: int| 0 <= i < labels.len() ==> name::is_host_label(#[trigger] labels[i]),
    ensures
        blocked_name(list, labels) == blocked(list, text::lower(name::host_text(labels))),
{
    let ascii = name::name_ascii(labels);
    name::law_presentation_is_ascii(labels);
    name::law_host_names_read_as_they_are(labels);
    text::lemma_lower_trim(ascii);
    text::lemma_lower_trim(text::lower(ascii));
    text::lemma_lower_idempotent(ascii);
}

/// Labels in front of a name, in presentation form.
proof fn lemma_front_domain(front: Seq<Seq<u8>>, labels: Seq<Seq<u8>>) -> (head: Seq<char>)
    requires
        name::no_empty_label(front),
        name::no_empty_label(labels),
        front.len() > 0,
        labels.len() > 0,
    ensures
        domain_of(name::name_ascii(front + labels)) == head.push('.') + domain_of(
            name::name_ascii(labels),
        ),
    decreases front.len(),
{
    let (label, rest) = (front[0], front.drop_first());
    let first = text::lower(name::label_ascii(label, true));
    let after = rest + labels;
    assert(front + labels =~= seq![label] + after);
    assert forall|i: int| 0 <= i < rest.len() implies (#[trigger] rest[i]).len() > 0 by {
        assert(rest[i] == front[i + 1]);
    }
    assert forall|i: int| 0 <= i < after.len() implies (#[trigger] after[i]).len() > 0 by {
        if i < rest.len() {
            assert(after[i] == rest[i]);
        } else {
            assert(after[i] == labels[i - rest.len()]);
        }
    }
    lemma_longer_domain(label, after);
    if rest.len() == 0 {
        assert(after =~= labels);
        first
    } else {
        let inner = lemma_front_domain(rest, labels);
        let head = first.push('.') + inner;
        assert(first.push('.') + (inner.push('.') + domain_of(name::name_ascii(labels)))
            =~= head.push('.') + domain_of(name::name_ascii(labels)));
        head
    }
}

/// A host name that the list holds in lower case is blocked in any spelling, with any labels or
/// none in front of it.
pub proof fn law_listed_host_names_are_blocked(
    list: Seq<String>,
    i: int,
    front: Seq<Seq<u8>>,
    labels: Seq<Seq<u8>>,
)
    requires
        0 <= i < list.len(),
        labels.len() > 0,
        forall|j: int| 0 <= j < labels.len() ==> name::is_host_label(#[trigger] labels[j]),
        list[i]@ == text::lower(name::host_text(labels)),
        name::no_empty_label(front),
    ensures
        blocked_name(list, front + labels),
{
    let ascii = name::name_ascii(labels);
    name::law_presentation_is_ascii(labels);
    name::law_host_names_read_as_they_are(labels);
    text::lemma_lower_trim(ascii);
    text::lemma_lower_trim(text::lower(ascii));
    text::lemma_lower_idempotent(ascii);
    let (low, far) = (name::lower_labels(labels), name::lower_labels(front));
    assert(domain_of(name::name_ascii(low)) == list[i]@);
    assert(name::lower_labels(front + labels) =~= far + low);
    law_entries_block_themselves_and_what_is_below(list, i, seq![]);
    if front.len() == 0 {
        assert(far + low =~= low);
    } else {
        assert forall|j: int| 0 <= j < far.len() implies (#[trigger] far[j]).len() > 0 by {
            assert(front[j].len() > 0);
        }
        assert forall|j: int| 0 <= j < low.len() implies (#[trigger] low[j]).len() > 0 by {
            assert(name::is_host_label(labels[j]));
        }
        let head = lemma_front_domain(far, low);
        law_entries_block_themselves_and_what_is_below(list, i, head);
    }
}

/// A line of a blocklist file is an entry, whatever follows its first character, unless that is
/// an `r`; an empty line is one too.
pub proof fn law_lines_with_an_r_are_left_out(first: char, rest: Seq<char>)
    ensures
        is_entry(seq![]),
        is_entry(seq![first] + rest) <==> first != 'r',
{
    assert((seq![first] + rest)[0] == first);
}

/// The domain that a text is matched by is the text up to the dots at its end, with capitals in
/// lower case and every other character as it is.
pub proof fn law_domains_are_texts_in_lower_case(ascii: Seq<char>)
    ensures
        ({
            let domain = domain_of(ascii);
            &&& domain.len() <= ascii.len()
            &&& domain.len() > 0 ==> domain.last() != '.'
            &&& forall|i: int| domain.len() <= i < ascii.len() ==> #[trigger] ascii[i] == '.'
            &&& forall|i: int|
                0 <= i < domain.len() ==> if 65 <= ascii[i] as u32 <= 90 {
                    (#[trigger] domain[i]) as u32 == ascii[i] as u32 + 32
                } else {
                    domain[i] == ascii[i]
                }
        }),
{
    let (kept, domain) = (text::trim_dots(ascii), domain_of(ascii));
    text::law_trim_takes_trailing_dots_only(ascii);
    text::law_lower_changes_capitals_only(kept);
    if domain.len() > 0 {
        assert(domain.last() == domain[kept.len() - 1]);
        assert(kept.last() == kept[kept.len() - 1]);
    }
    assert forall|i: int| 0 <= i < domain.len() implies if 65 <= ascii[i] as u32 <= 90 {
        (#[trigger] domain[i]) as u32 == ascii[i] as u32 + 32
    } else {
        domain[i] == ascii[i]
    } by {
        assert(kept[i] == ascii[i]);
        assert(domain[i] == text::lower(kept)[i]);
    }
}

/// A name is blocked exactly if its presentation form is, and the case of letters does not matter.
pub proof fn law_names_are_matched_by_their_presentation(
    list: Seq<String>,
    labels: Seq<Seq<u8>>,
)
    ensures
        blocked_name(list, labels) == blocked(list, domain_of(name::name_ascii(labels))),
{
    let ascii = name::name_ascii(labels);
    name::law_presentation_is_ascii(labels);
    text::lemma_lower_trim(ascii);
    text::lemma_lower_trim(text::lower(ascii));
    text::lemma_lower_idempotent(ascii);
}

} // verus!
