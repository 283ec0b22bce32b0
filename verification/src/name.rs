//! Absolute domain names.
use crate::text;
use hickory_proto::rr::Name as WireName;
use vstd::prelude::*;

verus! {

/// An absolute domain name: its labels from the leftmost to the one below the root.
#[derive(Debug)]
pub struct Name {
    pub labels: Vec<Vec<u8>>,
}

impl View for Name {
    type V = Seq<Seq<u8>>;

    open spec fn view(&self) -> Seq<Seq<u8>> {
        self.labels@.map_values(|l: Vec<u8>| l@)
    }
}

/// How many octets the labels take on the wire, each with its length octet, and the root's.
pub open spec fn wire_len(labels: Seq<Seq<u8>>) -> nat
    decreases labels.len(),
{
    if labels.len() == 0 {
        1
    } else {
        wire_len(labels.drop_last()) + labels.last().len() + 1
    }
}

/// What the DNS allows as a name: labels of 1 to 63 octets, 255 octets in all.
pub open spec fn valid_labels(labels: Seq<Seq<u8>>) -> bool {
    &&& forall|i: int| 0 <= i < labels.len() ==> 1 <= (#[trigger] labels[i]).len() <= 63
    &&& wire_len(labels) <= 255
}

/// An octet with an ASCII letter in lower case.
pub open spec fn lower_octet(b: u8) -> u8 {
    if 65 <= b <= 90 {
        (b + 32) as u8
    } else {
        b
    }
}

/// A label in lower case.
pub open spec fn lower_label(label: Seq<u8>) -> Seq<u8> {
    label.map_values(|b: u8| lower_octet(b))
}

/// A name in lower case.
pub open spec fn lower_labels(labels: Seq<Seq<u8>>) -> Seq<Seq<u8>> {
    labels.map_values(|l: Seq<u8>| lower_label(l))
}

/// Two names are the same name if they differ at most in the case of ASCII letters.
pub open spec fn same_name(a: Seq<Seq<u8>>, b: Seq<Seq<u8>>) -> bool {
    lower_labels(a) == lower_labels(b)
}

/// An octet stands for itself in the presentation form of a label: a letter, a digit, an
/// underscore, a hyphen unless it is the first, an asterisk if it is the first.
pub open spec fn is_plain(b: u8, first: bool) -> bool {
    ||| 48 <= b <= 57
    ||| 65 <= b <= 90
    ||| 97 <= b <= 122
    ||| b == 95
    ||| b == 45 && !first
    ||| b == 42 && first
}

/// The presentation form of an octet: as it is, or after a backslash if it can be printed, or else
/// as a backslash and three octal digits.
pub open spec fn octet_ascii(b: u8, first: bool) -> Seq<char> {
    if is_plain(b, first) {
        seq![b as char]
    } else if 32 < b < 127 {
        seq!['\\', b as char]
    } else {
        seq![
            '\\',
            text::digit((b / 64) as nat),
            text::digit((b / 8 % 8) as nat),
            text::digit((b % 8) as nat),
        ]
    }
}

/// The presentation form of a label, or of the rest of one.
pub open spec fn label_ascii(label: Seq<u8>, first: bool) -> Seq<char>
    decreases label.len(),
{
    if label.len() == 0 {
        seq![]
    } else {
        octet_ascii(label[0], first) + label_ascii(label.drop_first(), false)
    }
}

/// Labels in presentation form, each with a dot after it.
pub open spec fn dotted(labels: Seq<Seq<u8>>) -> Seq<char>
    decreases labels.len(),
{
    if labels.len() == 0 {
        seq![]
    } else {
        label_ascii(labels[0], true).push('.') + dotted(labels.drop_first())
    }
}

/// The presentation form of the absolute name with these labels.
pub open spec fn name_ascii(labels: Seq<Seq<u8>>) -> Seq<char> {
    if labels.len() == 0 {
        seq!['.']
    } else {
        dotted(labels)
    }
}

/// The presentation form of a name, by `hickory_proto`'s `Name::to_ascii` on the name that
/// `Name::from_labels` makes of the labels. It is claimed that the text is the one that
/// [`name_ascii`] spells out.
#[verifier::external_body]
pub(crate) fn to_ascii(name: &Name) -> (r: String)
    requires
        name.wf(),
    ensures
        r@ == name_ascii(name@),
{
    WireName::from_labels(name.labels.clone()).unwrap().to_ascii()
}

proof fn lemma_octet(b: u8, first: bool)
    ensures
        octet_ascii(b, first).len() > 0,
        octet_ascii(b, first)[0] != '.',
        text::is_ascii_text(octet_ascii(b, first)),
        text::lower(octet_ascii(b, first)) == octet_ascii(lower_octet(b), first),
{
    assert((b as char) as u32 == b as u32);
    assert(text::lower(octet_ascii(b, first)) =~= octet_ascii(lower_octet(b), first));
}

/// A text that begins with the presentation form of an octet tells the octet.
proof fn lemma_octet_unique(a: u8, x: Seq<char>, b: u8, y: Seq<char>, first: bool)
    requires
        octet_ascii(a, first) + x == octet_ascii(b, first) + y,
    ensures
        a == b,
        x == y,
{
    let (s, t) = (octet_ascii(a, first), octet_ascii(b, first));
    let whole = s + x;
    assert((a as char) as u32 == a as u32);
    assert((b as char) as u32 == b as u32);
    assert(whole[0] == s[0] && whole[0] == t[0]);
    if s.len() > 1 && t.len() > 1 {
        assert(whole[1] == s[1] && whole[1] == t[1]);
        if s.len() == 4 && t.len() == 4 {
            assert(whole[2] == s[2] && whole[2] == t[2]);
            assert(whole[3] == s[3] && whole[3] == t[3]);
        }
    }
    assert(a == b);
    assert(x =~= whole.skip(s.len() as int));
    assert(y =~= whole.skip(s.len() as int));
}

proof fn lemma_label(label: Seq<u8>, first: bool)
    ensures
        text::is_ascii_text(label_ascii(label, first)),
        text::lower(label_ascii(label, first)) == label_ascii(lower_label(label), first),
        label.len() > 0 ==> label_ascii(label, first).len() > 0 && label_ascii(label, first)[0]
            != '.',
    decreases label.len(),
{
    if label.len() > 0 {
        let rest = label.drop_first();
        lemma_octet(label[0], first);
        lemma_label(rest, false);
        assert(lower_label(label).drop_first() =~= lower_label(rest));
        assert(text::lower(label_ascii(label, first)) =~= text::lower(octet_ascii(label[0], first))
            + text::lower(label_ascii(rest, false)));
    } else {
        assert(text::lower(label_ascii(label, first)) =~= label_ascii(lower_label(label), first));
    }
}

proof fn lemma_dotted(labels: Seq<Seq<u8>>)
    ensures
        text::is_ascii_text(dotted(labels)),
        text::lower(dotted(labels)) == dotted(lower_labels(labels)),
    decreases labels.len(),
{
    if labels.len() > 0 {
        let rest = labels.drop_first();
        lemma_label(labels[0], true);
        lemma_dotted(rest);
        assert(lower_labels(labels).drop_first() =~= lower_labels(rest));
        assert(text::lower(dotted(labels)) =~= text::lower(label_ascii(labels[0], true)).push('.')
            + text::lower(dotted(rest)));
    } else {
        assert(text::lower(dotted(labels)) =~= dotted(lower_labels(labels)));
    }
}

/// The presentation form holds ASCII characters only, and that of the lower-cased name is the
/// lower-cased text.
pub proof fn law_presentation_is_ascii(labels: Seq<Seq<u8>>)
    ensures
        text::is_ascii_text(name_ascii(labels)),
        text::lower(name_ascii(labels)) == name_ascii(lower_labels(labels)),
{
    lemma_dotted(labels);
    if labels.len() == 0 {
        assert(text::lower(name_ascii(labels)) =~= name_ascii(lower_labels(labels)));
    }
}

/// Lower-casing a name twice is lower-casing it once.
pub proof fn lemma_lower_labels_idempotent(labels: Seq<Seq<u8>>)
    ensures
        lower_labels(lower_labels(labels)) == lower_labels(labels),
{
    assert forall|i: int| 0 <= i < labels.len() implies lower_label(lower_label(labels[i]))
        == #[trigger] lower_label(labels[i]) by {
        assert(lower_label(lower_label(labels[i])) =~= lower_label(labels[i]));
    }
    assert(lower_labels(lower_labels(labels)) =~= lower_labels(labels));
}

/// No label is empty.
pub open spec fn no_empty_label(labels: Seq<Seq<u8>>) -> bool {
    forall|i: int| 0 <= i < labels.len() ==> (#[trigger] labels[i]).len() > 0
}

/// Every character is a dot.
pub open spec fn only_dots(s: Seq<char>) -> bool {
    forall|i: int| 0 <= i < s.len() ==> #[trigger] s[i] == '.'
}

proof fn lemma_rest_has_no_empty_label(labels: Seq<Seq<u8>>)
    requires
        no_empty_label(labels),
        labels.len() > 0,
    ensures
        no_empty_label(labels.drop_first()),
{
    let rest = labels.drop_first();
    assert forall|i: int| 0 <= i < rest.len() implies (#[trigger] rest[i]).len() > 0 by {
        assert(rest[i] == labels[i + 1]);
    }
}

proof fn lemma_dotted_starts(labels: Seq<Seq<u8>>, after: Seq<char>)
    requires
        no_empty_label(labels),
        labels.len() > 0,
    ensures
        (dotted(labels) + after).len() > 0,
        (dotted(labels) + after)[0] != '.',
{
    assert(labels[0].len() > 0);
    lemma_label(labels[0], true);
    assert((dotted(labels) + after)[0] == label_ascii(labels[0], true)[0]);
}

proof fn lemma_octet_first(label: Seq<u8>, labels: Seq<char>, after: Seq<char>, first: bool)
    requires
        label.len() > 0,
    ensures
        label_ascii(label, first).push('.') + labels + after == octet_ascii(label[0], first) + (
        label_ascii(label.drop_first(), false).push('.') + labels + after),
{
    assert(label_ascii(label, first).push('.') + labels + after =~= octet_ascii(label[0], first) + (
    label_ascii(label.drop_first(), false).push('.') + labels + after));
}

/// Reading two equal texts from the left gives the same labels, whatever dots come after them.
#[verifier::spinoff_prover]
proof fn lemma_labels_unique(
    x: Seq<u8>,
    xs: Seq<Seq<u8>>,
    r: Seq<char>,
    y: Seq<u8>,
    ys: Seq<Seq<u8>>,
    s: Seq<char>,
    first: bool,
)
    requires
        label_ascii(x, first).push('.') + dotted(xs) + r == label_ascii(y, first).push('.')
            + dotted(ys) + s,
        no_empty_label(xs),
        no_empty_label(ys),
        only_dots(r),
        only_dots(s),
    ensures
        x == y,
        xs == ys,
    decreases xs.len(), x.len(),
{
    let left = label_ascii(x, first).push('.') + dotted(xs) + r;
    let right = label_ascii(y, first).push('.') + dotted(ys) + s;
    if x.len() == 0 && y.len() == 0 {
        assert(left.drop_first() =~= dotted(xs) + r);
        assert(right.drop_first() =~= dotted(ys) + s);
        if xs.len() > 0 && ys.len() > 0 {
            let (v, vs, w, ws) = (xs[0], xs.drop_first(), ys[0], ys.drop_first());
            lemma_rest_has_no_empty_label(xs);
            lemma_rest_has_no_empty_label(ys);
            lemma_labels_unique(v, vs, r, w, ws, s, true);
            assert(xs =~= seq![v] + vs);
            assert(ys =~= seq![w] + ws);
        } else if xs.len() > 0 {
            lemma_dotted_starts(xs, r);
            assert((dotted(ys) + s)[0] == s[0]);
        } else if ys.len() > 0 {
            lemma_dotted_starts(ys, s);
            assert((dotted(xs) + r)[0] == r[0]);
        } else {
            assert(xs =~= ys);
        }
        assert(x =~= y);
    } else if x.len() == 0 {
        lemma_label(y, first);
        assert(left[0] == '.');
        assert(right[0] == label_ascii(y, first)[0]);
    } else if y.len() == 0 {
        lemma_label(x, first);
        assert(right[0] == '.');
        assert(left[0] == label_ascii(x, first)[0]);
    } else {
        let (u, v) = (x.drop_first(), y.drop_first());
        let after_x = label_ascii(u, false).push('.') + dotted(xs) + r;
        let after_y = label_ascii(v, false).push('.') + dotted(ys) + s;
        lemma_octet_first(x, dotted(xs), r, first);
        lemma_octet_first(y, dotted(ys), s, first);
        lemma_octet_unique(x[0], after_x, y[0], after_y, first);
        lemma_labels_unique(u, xs, r, v, ys, s, false);
        assert(x =~= seq![x[0]] + u);
        assert(y =~= seq![y[0]] + v);
    }
}

/// What a text without its trailing dots leaves out is dots.
proof fn lemma_trimmed(s: Seq<char>)
    ensures
        text::trim_dots(s).len() <= s.len(),
        s == text::trim_dots(s) + s.skip(text::trim_dots(s).len() as int),
        only_dots(s.skip(text::trim_dots(s).len() as int)),
        s.len() > 0 && s[0] != '.' ==> text::trim_dots(s).len() > 0,
    decreases s.len(),
{
    let kept = text::trim_dots(s).len() as int;
    if s.len() > 0 && s.last() == '.' {
        let shorter = s.drop_last();
        lemma_trimmed(shorter);
        assert(s.skip(kept) =~= shorter.skip(kept).push('.'));
        assert(s =~= shorter.push('.'));
        assert(s =~= text::trim_dots(s) + s.skip(kept));
    } else {
        assert(s =~= s + s.skip(kept));
    }
}

/// Two names with one presentation form, trailing dots aside, have the same labels.
pub proof fn law_presentation_tells_the_name(a: Seq<Seq<u8>>, b: Seq<Seq<u8>>)
    requires
        no_empty_label(a),
        no_empty_label(b),
        text::trim_dots(name_ascii(a)) == text::trim_dots(name_ascii(b)),
    ensures
        a == b,
{
    let (f, g) = (name_ascii(a), name_ascii(b));
    let kept = text::trim_dots(f);
    lemma_trimmed(f);
    lemma_trimmed(g);
    lemma_root_is_trimmed_away(a);
    lemma_root_is_trimmed_away(b);
    let (d, e) = (f.skip(kept.len() as int), g.skip(kept.len() as int));
    assert(f + e =~= g + d) by {
        assert forall|i: int| 0 <= i < (f + e).len() implies (f + e)[i] == (g + d)[i] by {
            if i >= kept.len() {
                assert((f + e)[i] == '.') by {
                    if i < f.len() {
                        assert(f[i] == d[i - kept.len()]);
                    } else {
                        assert((f + e)[i] == e[i - f.len()]);
                    }
                }
                assert((g + d)[i] == '.') by {
                    if i < g.len() {
                        assert(g[i] == e[i - kept.len()]);
                    } else {
                        assert((g + d)[i] == d[i - g.len()]);
                    }
                }
            } else {
                assert(f[i] == kept[i] && g[i] == kept[i]);
            }
        }
    }
    if a.len() > 0 && b.len() > 0 {
        let (x, xs, y, ys) = (a[0], a.drop_first(), b[0], b.drop_first());
        lemma_rest_has_no_empty_label(a);
        lemma_rest_has_no_empty_label(b);
        lemma_labels_unique(x, xs, e, y, ys, d, true);
        assert(a =~= seq![x] + xs);
        assert(b =~= seq![y] + ys);
    } else {
        assert(a =~= b);
    }
}

/// Of the presentation form, nothing is left without its trailing dots exactly for the root.
pub proof fn lemma_root_is_trimmed_away(labels: Seq<Seq<u8>>)
    requires
        no_empty_label(labels),
    ensures
        text::trim_dots(name_ascii(labels)).len() == 0 <==> labels.len() == 0,
{
    let f = name_ascii(labels);
    lemma_trimmed(f);
    if labels.len() > 0 {
        lemma_label(labels[0], true);
        assert(f[0] == label_ascii(labels[0], true)[0]);
    } else {
        assert(f.drop_last() =~= seq![]);
        assert(text::trim_dots(f) == text::trim_dots(f.drop_last()));
    }
}

fn to_lower_octet(b: u8) -> (r: u8)
    ensures
        r == lower_octet(b),
{
    if b >= 65 && b <= 90 {
        b + 32
    } else {
        b
    }
}

/// Whether two labels differ at most in the case of ASCII letters.
fn same_label(a: &Vec<u8>, b: &Vec<u8>) -> (r: bool)
    ensures
        r == (lower_label(a@) == lower_label(b@)),
{
    if a.len() != b.len() {
        assert(lower_label(a@).len() != lower_label(b@).len());
        return false;
    }
    for i in 0..a.len()
        invariant
            a@.len() == b@.len(),
            forall|j: int| 0 <= j < i ==> lower_octet(#[trigger] a@[j]) == lower_octet(b@[j]),
    {
        if to_lower_octet(a[i]) != to_lower_octet(b[i]) {
            assert(lower_label(a@)[i as int] != lower_label(b@)[i as int]);
            return false;
        }
    }
    assert(lower_label(a@) =~= lower_label(b@));
    true
}

impl Name {
    /// The name can stand in a message.
    pub open spec fn wf(&self) -> bool {
        valid_labels(self@)
    }

    /// Whether both are the same name.
    pub fn same(&self, other: &Name) -> (r: bool)
        ensures
            r == same_name(self@, other@),
    {
        if self.labels.len() != other.labels.len() {
            assert(lower_labels(self@).len() != lower_labels(other@).len());
            return false;
        }
        for i in 0..self.labels.len()
            invariant
                self.labels@.len() == other.labels@.len(),
                forall|j: int|
                    0 <= j < i ==> lower_label(#[trigger] self@[j]) == lower_label(other@[j]),
        {
            if !same_label(&self.labels[i], &other.labels[i]) {
                assert(lower_labels(self@)[i as int] != lower_labels(other@)[i as int]);
                return false;
            }
        }
        assert(lower_labels(self@) =~= lower_labels(other@));
        true
    }
}

impl Clone for Name {
    fn clone(&self) -> (r: Self)
        ensures
            r@ == self@,
    {
        let mut labels: Vec<Vec<u8>> = Vec::new();
        for i in 0..self.labels.len()
            invariant
                labels@.len() == i,
                forall|j: int| 0 <= j < i ==> (#[trigger] labels@[j])@ == self.labels@[j]@,
        {
            let label = self.labels[i].clone();
            assert(label@ =~= self.labels@[i as int]@);
            labels.push(label);
        }
        let r = Name { labels };
        assert(r@ =~= self@);
        r
    }
}

/// Two octets are equal, or one letter in its two cases.
pub open spec fn alike(a: u8, b: u8) -> bool {
    ||| a == b
    ||| 65 <= a <= 90 && b == a + 32
    ||| 65 <= b <= 90 && a == b + 32
}

/// Two names are the same name if and only if they have as many labels, each as long as its
/// counterpart, and the octets are equal or one ASCII letter in its two cases, place by place.
pub proof fn law_same_name_compares_octets(a: Seq<Seq<u8>>, b: Seq<Seq<u8>>)
    ensures
        same_name(a, b) <==> a.len() == b.len() && forall|i: int|
            0 <= i < a.len() ==> (#[trigger] a[i]).len() == b[i].len() && forall|j: int|
                0 <= j < a[i].len() ==> alike(#[trigger] a[i][j], b[i][j]),
{
    let (x, y) = (lower_labels(a), lower_labels(b));
    if same_name(a, b) {
        assert(x.len() == a.len() && y.len() == b.len());
        assert forall|i: int| 0 <= i < a.len() implies (#[trigger] a[i]).len() == b[i].len()
            && forall|j: int| 0 <= j < a[i].len() ==> alike(#[trigger] a[i][j], b[i][j]) by {
            assert(x[i] == y[i]);
            assert(x[i].len() == a[i].len() && y[i].len() == b[i].len());
            assert forall|j: int| 0 <= j < a[i].len() implies alike(
                #[trigger] a[i][j],
                b[i][j],
            ) by {
                assert(x[i][j] == lower_octet(a[i][j]) && y[i][j] == lower_octet(b[i][j]));
            }
        }
    }
    if a.len() == b.len() && forall|i: int|
        0 <= i < a.len() ==> (#[trigger] a[i]).len() == b[i].len() && forall|j: int|
            0 <= j < a[i].len() ==> alike(#[trigger] a[i][j], b[i][j]) {
        assert forall|i: int| 0 <= i < a.len() implies #[trigger] x[i] == y[i] by {
            assert(a[i].len() == b[i].len());
            assert forall|j: int| 0 <= j < a[i].len() implies #[trigger] x[i][j] == y[i][j] by {
                assert(alike(a[i][j], b[i][j]));
            }
            assert(x[i] =~= y[i]);
        }
        assert(x =~= y);
    }
}

/// On the wire, the root takes one octet, a label its length and one, and labels take what they
/// take apart.
pub proof fn law_wire_length_adds_up(a: Seq<Seq<u8>>, label: Seq<u8>, b: Seq<Seq<u8>>)
    ensures
        wire_len(seq![]) == 1,
        wire_len(seq![label]) == label.len() + 2,
        wire_len(a + b) + 1 == wire_len(a) + wire_len(b),
    decreases b.len(),
{
    assert(seq![label].drop_last() =~= seq![]);
    assert(wire_len(seq![label].drop_last()) == 1);
    if b.len() == 0 {
        assert(a + b =~= a);
    } else {
        law_wire_length_adds_up(a, label, b.drop_last());
        assert((a + b).drop_last() =~= a + b.drop_last());
        assert((a + b).last() == b.last());
    }
}

/// A name is one that the DNS allows if and only if every label has 1 to 63 octets and all take
/// at most 255 octets on the wire.
pub proof fn law_allowed_names(labels: Seq<Seq<u8>>)
    ensures
        valid_labels(labels) <==> wire_len(labels) <= 255 && forall|i: int|
            0 <= i < labels.len() ==> 1 <= (#[trigger] labels[i]).len() <= 63,
{
}

/// An octet of a host name that needs no care: a letter or a digit.
pub open spec fn is_letter_or_digit(b: u8) -> bool {
    48 <= b <= 57 || 65 <= b <= 90 || 97 <= b <= 122
}

/// A label of a host name: letters, digits and hyphens, the first of them no hyphen.
pub open spec fn is_host_label(label: Seq<u8>) -> bool {
    &&& label.len() > 0
    &&& is_letter_or_digit(label[0])
    &&& forall|i: int| 0 < i < label.len() ==> is_letter_or_digit(#[trigger] label[i]) || label[i]
        == 45
}

/// The characters of a label, as they are.
pub open spec fn spelled(label: Seq<u8>) -> Seq<char> {
    label.map_values(|b: u8| b as char)
}

/// The labels of a host name as they are, a dot between each two.
pub open spec fn host_text(labels: Seq<Seq<u8>>) -> Seq<char>
    decreases labels.len(),
{
    if labels.len() == 0 {
        seq![]
    } else if labels.len() == 1 {
        spelled(labels[0])
    } else {
        spelled(labels[0]).push('.') + host_text(labels.drop_first())
    }
}

proof fn lemma_host_label(label: Seq<u8>, first: bool)
    requires
        first ==> is_host_label(label),
        !first ==> forall|i: int|
            0 <= i < label.len() ==> is_letter_or_digit(#[trigger] label[i]) || label[i] == 45,
    ensures
        label_ascii(label, first) == spelled(label),
    decreases label.len(),
{
    if label.len() > 0 {
        let rest = label.drop_first();
        assert forall|i: int| 0 <= i < rest.len() implies is_letter_or_digit(#[trigger] rest[i])
            || rest[i] == 45 by {
            assert(rest[i] == label[i + 1]);
        }
        lemma_host_label(rest, false);
        assert(is_letter_or_digit(label[0]) || label[0] == 45 && !first);
        assert(octet_ascii(label[0], first) =~= seq![label[0] as char]);
        assert(label_ascii(label, first) =~= spelled(label));
    } else {
        assert(label_ascii(label, first) =~= spelled(label));
    }
}

/// The presentation form of a host name is its labels as they are, with a dot after each.
pub proof fn law_host_names_read_as_they_are(labels: Seq<Seq<u8>>)
    requires
        labels.len() > 0,
        forall|i: int| 0 <= i < labels.len() ==> is_host_label(#[trigger] labels[i]),
    ensures
        name_ascii(labels) == host_text(labels).push('.'),
        text::trim_dots(name_ascii(labels)) == host_text(labels),
    decreases labels.len(),
{
    let rest = labels.drop_first();
    assert(is_host_label(labels[0]));
    lemma_host_label(labels[0], true);
    let f = name_ascii(labels);
    if labels.len() == 1 {
        assert(rest =~= seq![]);
        assert(dotted(rest) =~= seq![]);
        assert(f =~= host_text(labels).push('.'));
        let b = labels[0].last();
        assert(b == labels[0][labels[0].len() - 1]);
        assert((b as char) as u32 == b as u32);
        assert(host_text(labels).last() == b as char);
    } else {
        assert forall|i: int| 0 <= i < rest.len() implies is_host_label(#[trigger] rest[i]) by {
            assert(rest[i] == labels[i + 1]);
        }
        law_host_names_read_as_they_are(rest);
        assert(f =~= host_text(labels).push('.'));
        let tail = host_text(rest);
        assert(tail.len() > 0 && tail.last() != '.') by {
            let g = name_ascii(rest);
            assert(is_host_label(rest[0]));
            lemma_root_is_trimmed_away_of(rest);
            text::law_trim_takes_trailing_dots_only(g);
        }
        assert(host_text(labels).last() == tail.last());
    }
    assert(f.drop_last() =~= host_text(labels));
    assert(text::trim_dots(f) == text::trim_dots(host_text(labels)));
}

proof fn lemma_root_is_trimmed_away_of(labels: Seq<Seq<u8>>)
    requires
        labels.len() > 0,
        forall|i: int| 0 <= i < labels.len() ==> is_host_label(#[trigger] labels[i]),
    ensures
        text::trim_dots(name_ascii(labels)).len() > 0,
{
    assert forall|i: int| 0 <= i < labels.len() implies (#[trigger] labels[i]).len() > 0 by {
        assert(is_host_label(labels[i]));
    }
    lemma_root_is_trimmed_away(labels);
}

/// What names stand for leaves nothing of them out.
pub proof fn law_views_of_names_leave_nothing_out(name: Name)
    ensures
        name@.len() == name.labels@.len(),
        forall|i: int| 0 <= i < name.labels@.len() ==> #[trigger] name@[i] == name.labels@[i]@,
        name.wf() <==> valid_labels(name@),
{
}

} // verus!
