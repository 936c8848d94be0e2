//! Domain names: their labels and their text.

use hickory_proto::rr::{LowerName, Name};
use vstd::prelude::*;
use vstd::string::*;

use crate::order::copied;

verus! {

/// The octets that a name of these labels takes on the wire, without the root.
pub open spec fn wire_len(labels: Seq<Seq<u8>>) -> nat
    decreases labels.len(),
{
    if labels.len() == 0 {
        0
    } else {
        wire_len(labels.drop_last()) + labels.last().len() + 1
    }
}

/// Every label has 1 to 63 octets, and the name at most 255.
pub open spec fn valid_name(labels: Seq<Seq<u8>>) -> bool {
    &&& forall|i: int| 0 <= i < labels.len() ==> 1 <= (#[trigger] labels[i]).len() <= 63
    &&& wire_len(labels) <= 255
}

/// A letter, a digit, `_`, or, behind the first octet, `-`.
pub open spec fn is_plain_octet(b: u8, first: bool) -> bool {
    ||| 0x61 <= b <= 0x7a
    ||| 0x41 <= b <= 0x5a
    ||| 0x30 <= b <= 0x39
    ||| b == 0x5f
    ||| b == 0x2d && !first
}

/// The label begins with `xn--`, in any case.
pub open spec fn is_idna(label: Seq<u8>) -> bool {
    &&& label.len() >= 4
    &&& label[0] == 0x78 || label[0] == 0x58
    &&& label[1] == 0x6e || label[1] == 0x4e
    &&& label[2] == 0x2d
    &&& label[3] == 0x2d
}

/// A label of plain octets that does not stand for other characters.
pub open spec fn is_plain_label(label: Seq<u8>) -> bool {
    &&& label.len() > 0
    &&& forall|i: int| 0 <= i < label.len() ==> is_plain_octet(#[trigger] label[i], i == 0)
    &&& !is_idna(label)
}

/// At least one label, and all of them plain.
pub open spec fn is_plain(labels: Seq<Seq<u8>>) -> bool {
    &&& labels.len() > 0
    &&& forall|i: int| 0 <= i < labels.len() ==> is_plain_label(#[trigger] labels[i])
}

/// The characters of a label.
pub open spec fn label_chars(label: Seq<u8>) -> Seq<char> {
    label.map_values(|b: u8| b as char)
}

/// The labels as text, a dot behind each.
pub open spec fn dotted(labels: Seq<Seq<u8>>) -> Seq<char>
    decreases labels.len(),
{
    if labels.len() == 0 {
        Seq::empty()
    } else {
        dotted(labels.drop_last()) + label_chars(labels.last()) + seq!['.']
    }
}

/// The labels in lower case.
pub open spec fn lower_labels(labels: Seq<Seq<u8>>) -> Seq<Seq<u8>> {
    labels.map_values(|label: Seq<u8>| lower_label(label))
}

/// A label in lower case.
pub open spec fn lower_label(label: Seq<u8>) -> Seq<u8> {
    label.map_values(
        |b: u8|
            if 0x41 <= b <= 0x5a {
                (b + 32) as u8
            } else {
                b
            },
    )
}

/// Lower case on the labels is lower case on their text.
pub proof fn lower_labels_text(labels: Seq<Seq<u8>>)
    requires
        is_plain(labels),
    ensures
        dotted(lower_labels(labels)) == crate::text::lower(dotted(labels)),
        is_plain(lower_labels(labels)),
    decreases labels.len(),
{
    let low = lower_labels(labels);
    assert forall|i: int| 0 <= i < low.len() implies is_plain_label(#[trigger] low[i]) by {
        assert(is_plain_label(labels[i]));
        assert(low[i] == lower_label(labels[i]));
        assert forall|k: int| 0 <= k < low[i].len() implies is_plain_octet(
            #[trigger] low[i][k],
            k == 0,
        ) by {
            assert(is_plain_octet(labels[i][k], k == 0));
        }
    }
    let init = labels.drop_last();
    let label = labels.last();
    assert(low.drop_last() =~= lower_labels(init));
    assert(low.last() == lower_label(label));
    assert(is_plain_label(labels[labels.len() - 1]));
    let c = label_chars(label);
    let lc = label_chars(lower_label(label));
    assert(lc =~= crate::text::lower(c)) by {
        assert forall|k: int| 0 <= k < lc.len() implies lc[k] == crate::text::lower(c)[k] by {
            assert(is_plain_octet(label[k], k == 0));
            assert(c[k] == label[k] as char);
        }
    }
    if init.len() > 0 {
        assert forall|i: int| 0 <= i < init.len() implies is_plain_label(
            #[trigger] init[i],
        ) by {
            assert(init[i] == labels[i]);
        }
        lower_labels_text(init);
    } else {
        assert(init =~= Seq::empty());
        assert(lower_labels(init) =~= Seq::empty());
        assert(crate::text::lower(dotted(init)) =~= Seq::empty());
    }
    let d = dotted(init);
    crate::text::lower_of_concat(d + c, seq!['.']);
    crate::text::lower_of_concat(d, c);
    assert(crate::text::lower(seq!['.']) =~= seq!['.']);
}

/// Lower case changes no length.
proof fn lower_labels_are_valid(labels: Seq<Seq<u8>>)
    requires
        valid_name(labels),
    ensures
        valid_name(lower_labels(labels)),
{
    let low = lower_labels(labels);
    lower_labels_len(labels);
    assert forall|i: int| 0 <= i < low.len() implies 1 <= (#[trigger] low[i]).len() <= 63 by {
        assert(low[i].len() == labels[i].len());
    }
}

/// A name in lower case takes as many octets.
pub proof fn lower_labels_len(labels: Seq<Seq<u8>>)
    ensures
        wire_len(lower_labels(labels)) == wire_len(labels),
    decreases labels.len(),
{
    if labels.len() > 0 {
        lower_labels_len(labels.drop_last());
        assert(lower_labels(labels).drop_last() =~= lower_labels(labels.drop_last()));
    }
}

/// The text of a name in lower case: escapes where they are needed, and IDNA
/// labels as the characters they stand for.
pub uninterp spec fn lower_name_text(labels: Seq<Seq<u8>>) -> Seq<char>;

/// The labels of the name that an ASCII text writes.
pub uninterp spec fn ascii_name(text: Seq<char>) -> Option<Seq<Seq<u8>>>;

/// The labels as plain sequences, where there are any.
pub open spec fn opt_labels(labels: Option<Vec<Vec<u8>>>) -> Option<Seq<Seq<u8>>> {
    match labels {
        Some(l) => Some(l.deep_view()),
        None => None,
    }
}

/// `LowerName::to_string`, of the name that `Name::from_labels` makes: a
/// function of the labels. `from_labels` takes every valid list of labels.
/// Plain labels stand in the text as they are, in lower case, with a dot
/// behind each.
#[verifier::external_body]
fn name_text(labels: &Vec<Vec<u8>>) -> (r: String)
    requires
        valid_name(labels.deep_view()),
    ensures
        r@ == lower_name_text(labels.deep_view()),
        is_plain(labels.deep_view()) ==> r@ == crate::text::lower(dotted(labels.deep_view())),
{
    let name = Name::from_labels(labels.iter().map(|l| l.as_slice())).unwrap();
    LowerName::new(&name).to_string()
}

/// `Name::from_ascii` and the labels of its result, `None` for its error: a
/// function of the text. What it accepts is a valid name, and the text of
/// plain labels, a dot behind each, gives those labels.
#[verifier::external_body]
fn name_from_ascii(text: &str) -> (r: Option<Vec<Vec<u8>>>)
    ensures
        opt_labels(r) == ascii_name(text@),
        r matches Some(l) ==> valid_name(l.deep_view()),
        forall|l: Seq<Seq<u8>>| #[trigger]
            dotted(l) == text@ && is_plain(l) && valid_name(l) ==> opt_labels(r) == Some(l),
{
    Name::from_ascii(text).ok().map(|n| n.iter().map(|l| l.to_vec()).collect())
}

/// The octet in lower case.
fn lower_octet(b: u8) -> (r: u8)
    ensures
        r == (if 0x41 <= b <= 0x5a {
            (b + 32) as u8
        } else {
            b
        }),
{
    if 0x41 <= b && b <= 0x5a {
        b + 32
    } else {
        b
    }
}

/// The labels in lower case.
fn lowered(labels: &Vec<Vec<u8>>) -> (r: Vec<Vec<u8>>)
    ensures
        r.deep_view() == lower_labels(labels.deep_view()),
{
    let mut r: Vec<Vec<u8>> = Vec::new();
    for i in 0..labels.len()
        invariant
            r@.len() == i,
            forall|k: int| 0 <= k < i ==> (#[trigger] r@[k])@ == lower_label(labels@[k]@),
    {
        let label = &labels[i];
        let mut low: Vec<u8> = Vec::new();
        for j in 0..label.len()
            invariant
                low@ == lower_label(label@.take(j as int)),
        {
            low.push(lower_octet(label[j]));
            assert(low@ =~= lower_label(label@.take(j + 1)));
        }
        assert(label@.take(label@.len() as int) == label@);
        r.push(low);
    }
    assert forall|k: int| 0 <= k < r@.len() implies r.deep_view()[k] == lower_labels(
        labels.deep_view(),
    )[k] by {
        assert(r@[k].deep_view() =~= r@[k]@);
        assert(labels@[k].deep_view() =~= labels@[k]@);
    }
    assert(r.deep_view() =~= lower_labels(labels.deep_view()));
    r
}

/// A domain name: its labels, case preserved.
#[derive(Debug, PartialEq, Eq)]
pub struct DnsName {
    labels: Vec<Vec<u8>>,
}

impl View for DnsName {
    type V = Seq<Seq<u8>>;

    closed spec fn view(&self) -> Seq<Seq<u8>> {
        self.labels.deep_view()
    }
}

/// `r` is the name of these labels, where they make a valid one.
pub open spec fn is_name_with(labels: Seq<Seq<u8>>, r: Option<DnsName>) -> bool {
    match r {
        Some(n) => valid_name(labels) && n@ == labels,
        None => !valid_name(labels),
    }
}

impl DnsName {
    #[verifier::type_invariant]
    spec fn is_valid(self) -> bool {
        valid_name(self.labels.deep_view())
    }

    /// A name of these labels, if they make a valid one.
    pub fn new(labels: Vec<Vec<u8>>) -> (r: Option<DnsName>)
        ensures
            is_name_with(labels.deep_view(), r),
    {
        let ghost all = labels.deep_view();
        let mut total: usize = 0;
        for i in 0..labels.len()
            invariant
                all == labels.deep_view(),
                total == wire_len(all.take(i as int)),
                total <= 255,
                forall|k: int| 0 <= k < i ==> 1 <= (#[trigger] all[k]).len() <= 63,
        {
            let n = labels[i].len();
            assert(all[i as int] =~= labels@[i as int]@);
            if n < 1 || n > 63 {
                return None;
            }
            assert(all.take(i + 1).drop_last() == all.take(i as int));
            total = total + n + 1;
            if total > 255 {
                proof {
                    wire_len_grows(all, i + 1);
                }
                return None;
            }
        }
        assert(all.take(all.len() as int) == all);
        Some(DnsName { labels })
    }

    /// The labels of the name.
    pub fn labels(&self) -> (r: &Vec<Vec<u8>>)
        ensures
            r.deep_view() == self@,
    {
        &self.labels
    }

    /// The text of the name, in lower case.
    pub fn to_lower_text(&self) -> (r: String)
        ensures
            r@ == lower_name_text(lower_labels(self@)),
            is_plain(self@) ==> r@ == crate::text::lower(dotted(self@)),
    {
        proof {
            use_type_invariant(self);
            lower_labels_are_valid(self@);
            if is_plain(self@) {
                lower_labels_text(self@);
                crate::text::lower_is_idempotent(dotted(self@));
            }
        }
        let labels = lowered(&self.labels);
        name_text(&labels)
    }

    /// The name that an ASCII text writes.
    pub fn from_ascii(text: &str) -> (r: Option<DnsName>)
        ensures
            match r {
                Some(n) => ascii_name(text@) == Some(n@),
                None => ascii_name(text@) is None,
            },
            forall|l: Seq<Seq<u8>>| #[trigger]
                dotted(l) == text@ && is_plain(l) && valid_name(l) ==> ascii_name(text@) == Some(l),
    {
        match name_from_ascii(text) {
            Some(labels) => Some(DnsName { labels }),
            None => None,
        }
    }
}

/// More labels never make a shorter name.
proof fn wire_len_grows(labels: Seq<Seq<u8>>, k: int)
    requires
        0 <= k <= labels.len(),
    ensures
        wire_len(labels.take(k)) <= wire_len(labels),
    decreases labels.len() - k,
{
    if k == labels.len() {
        assert(labels.take(k) == labels);
    } else {
        wire_len_grows(labels, k + 1);
        assert(labels.take(k + 1).drop_last() == labels.take(k));
    }
}

impl Clone for DnsName {
    fn clone(&self) -> (r: DnsName)
        ensures
            r@ == self@,
    {
        proof {
            use_type_invariant(self);
        }
        let mut labels: Vec<Vec<u8>> = Vec::new();
        for i in 0..self.labels.len()
            invariant
                labels@.len() == i,
                forall|k: int| 0 <= k < i ==> (#[trigger] labels@[k])@ == self.labels@[k]@,
        {
            labels.push(copied(&self.labels[i]));
        }
        assert forall|k: int| 0 <= k < labels@.len() implies labels.deep_view()[k]
            == self.labels.deep_view()[k] by {
            assert(labels@[k].deep_view() =~= self.labels@[k].deep_view());
        }
        assert(labels.deep_view() =~= self.labels.deep_view());
        DnsName { labels }
    }
}

/// The octets of a name are those of its labels and one more for each.
pub proof fn name_length_adds_up(labels: Seq<Seq<u8>>, label: Seq<u8>)
    ensures
        wire_len(Seq::empty()) == 0,
        wire_len(labels.push(label)) == wire_len(labels) + label.len() + 1,
{
    assert(labels.push(label).drop_last() =~= labels);
}

/// A name is valid if and only if each label has 1 to 63 octets and all of it at
/// most 255, whatever the octets are.
pub proof fn validity_is_a_matter_of_length(labels: Seq<Seq<u8>>)
    ensures
        valid_name(labels) <==> wire_len(labels) <= 255 && forall|i: int|
            0 <= i < labels.len() ==> 0 < (#[trigger] labels[i]).len() < 64,
{
}

/// Lower case moves the letters from A to Z by 32 and leaves everything else of
/// a name as it is.
pub proof fn lower_moves_letters_of_labels(labels: Seq<Seq<u8>>, i: int, k: int)
    requires
        0 <= i < labels.len(),
        0 <= k < labels[i].len(),
    ensures
        lower_labels(labels).len() == labels.len(),
        lower_labels(labels)[i].len() == labels[i].len(),
        lower_labels(labels)[i][k] == if 65 <= labels[i][k] <= 90 {
            labels[i][k] + 32
        } else {
            labels[i][k] as int
        },
{
}

/// The text of labels is that of one label after the other, each with a dot
/// behind it.
pub proof fn text_of_labels_adds_up(labels: Seq<Seq<u8>>, label: Seq<u8>, k: int)
    requires
        0 <= k < label.len(),
    ensures
        dotted(Seq::empty()) == Seq::<char>::empty(),
        dotted(labels.push(label)).len() == dotted(labels).len() + label.len() + 1,
        dotted(labels.push(label)).take(dotted(labels).len() as int) == dotted(labels),
        dotted(labels.push(label))[dotted(labels).len() + k] as u32 == label[k],
        dotted(labels.push(label)).last() == '.',
{
    let d = dotted(labels.push(label));
    assert(labels.push(label).drop_last() =~= labels);
    assert(d.take(dotted(labels).len() as int) =~= dotted(labels));
    assert(d[dotted(labels).len() + k] == label_chars(label)[k]);
}

/// Labels of letters, digits, underscores and inner dashes are plain, unless
/// they begin with `xn--` in any case.
pub proof fn ordinary_labels_are_plain(labels: Seq<Seq<u8>>)
    requires
        labels.len() > 0,
        forall|i: int| 0 <= i < labels.len() ==> (#[trigger] labels[i]).len() > 0,
        forall|i: int, k: int|
            0 <= i < labels.len() && 0 <= k < labels[i].len() ==> {
                let b = #[trigger] labels[i][k];
                97 <= b <= 122 || 65 <= b <= 90 || 48 <= b <= 57 || b == 95 || (b == 45 && k > 0)
            },
        forall|i: int|
            0 <= i < labels.len() && (#[trigger] labels[i]).len() >= 4 ==> !((labels[i][0] == 120
                || labels[i][0] == 88) && (labels[i][1] == 110 || labels[i][1] == 78)
                && labels[i][2] == 45 && labels[i][3] == 45),
    ensures
        is_plain(labels),
{
    assert forall|i: int| 0 <= i < labels.len() implies is_plain_label(#[trigger] labels[i]) by {
        assert forall|k: int| 0 <= k < labels[i].len() implies is_plain_octet(
            #[trigger] labels[i][k],
            k == 0,
        ) by {}
    }
}

/// There is a name for every list of labels of 1 to 63 octets that is not
/// longer than 255 in all, and for no other; it has those very labels.
pub proof fn name_has_its_labels(labels: Seq<Seq<u8>>, r: Option<DnsName>)
    requires
        is_name_with(labels, r),
    ensures
        r is Some <==> wire_len(labels) <= 255 && forall|i: int|
            0 <= i < labels.len() ==> 0 < (#[trigger] labels[i]).len() < 64,
        r is Some ==> r->0@ == labels,
{
}

} // verus!
