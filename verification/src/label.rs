//! Point labels: which labels write an integer, the distinct labels of a
//! sequence in order of first appearance, and the label of each row.

use vstd::prelude::*;
use vstd::string::is_ascii_spec_bytes;
use vstd::utf8::is_ascii_chars;
use crate::key::{digits_value, LabelKey};

verus! {

/// `c` is one of the ten decimal digits.
pub open spec fn is_digit(c: char) -> bool {
    '0' <= c <= '9'
}

/// The digit `c` as a number.
pub open spec fn digit_value(c: char) -> int {
    c as int - '0' as int
}

/// Every character of `s` is a decimal digit.
pub open spec fn all_digits(s: Seq<char>) -> bool {
    forall|i: int| 0 <= i < s.len() ==> is_digit(#[trigger] s[i])
}

/// The number that the digits `s` write in base ten.
pub open spec fn decimal_value(s: Seq<char>) -> int
    decreases s.len(),
{
    if s.len() == 0 {
        0
    } else {
        10 * decimal_value(s.drop_last()) + digit_value(s.last())
    }
}

/// `s` begins with a plus or a minus sign.
pub open spec fn has_sign(s: Seq<char>) -> bool {
    s.len() > 0 && (s[0] == '+' || s[0] == '-')
}

/// `s` begins with a minus sign.
pub open spec fn is_negative(s: Seq<char>) -> bool {
    s.len() > 0 && s[0] == '-'
}

/// `s` without its leading sign, if it has one.
pub open spec fn unsigned_part(s: Seq<char>) -> Seq<char> {
    if has_sign(s) {
        s.drop_first()
    } else {
        s
    }
}

/// `s` writes an integer: an optional plus or minus sign, and then one or
/// more decimal digits and nothing else.
pub open spec fn is_integer(s: Seq<char>) -> bool {
    unsigned_part(s).len() > 0 && all_digits(unsigned_part(s))
}

/// The integer a label stands for, of whatever size. A label that does not
/// write an integer stands for no number.
pub open spec fn label_number(s: Seq<char>) -> Option<int> {
    if is_integer(s) {
        Some(
            if is_negative(s) {
                -decimal_value(unsigned_part(s))
            } else {
                decimal_value(unsigned_part(s))
            },
        )
    } else {
        None
    }
}

/// The digits `s`, each as its number.
pub open spec fn digit_values(s: Seq<char>) -> Seq<u8> {
    Seq::new(s.len(), |i: int| digit_value(s[i]) as u8)
}

/// `key` is the key of the label `s`: it has the label's sign and its digits
/// as written.
pub open spec fn is_key_of(key: LabelKey, s: Seq<char>) -> bool {
    key.negative == is_negative(s) && key.digits@ == digit_values(unsigned_part(s))
}

/// Digits write the same number as characters and as numbers.
proof fn lemma_digit_values(s: Seq<char>)
    requires
        all_digits(s),
    ensures
        digits_value(digit_values(s)) == decimal_value(s),
        forall|i: int| 0 <= i < s.len() ==> (#[trigger] digit_values(s)[i]) <= 9,
    decreases s.len(),
{
    if s.len() > 0 {
        lemma_digit_values(s.drop_last());
        assert(digit_values(s).drop_last() =~= digit_values(s.drop_last()));
        assert(is_digit(s[s.len() - 1]));
    }
    assert forall|i: int| 0 <= i < s.len() implies (#[trigger] digit_values(s)[i]) <= 9 by {
        assert(is_digit(s[i]));
    }
}

/// The key of a label that writes an integer stands for the label's number.
pub proof fn lemma_key_of(key: LabelKey, s: Seq<char>)
    requires
        is_integer(s),
        is_key_of(key, s),
    ensures
        key.well_formed(),
        label_number(s) == Some(key.value()),
{
    lemma_digit_values(unsigned_part(s));
}

/// A label with a character outside ASCII writes no integer.
proof fn lemma_not_ascii_not_number(s: Seq<char>, i: int)
    requires
        0 <= i < s.len(),
        !('\0' <= s[i] <= '\u{7f}'),
    ensures
        !is_integer(s),
{
    let digits = unsigned_part(s);
    if has_sign(s) {
        assert(digits[i - 1] == s[i]);
        assert(!is_digit(digits[i - 1]));
    } else {
        assert(!is_digit(digits[i]));
    }
}

/// The key of the integer that a label writes, or `None` where it writes
/// none.
pub fn parse_label(label: &str) -> (r: Option<LabelKey>)
    ensures
        r is Some <==> is_integer(label@),
        r matches Some(key) ==> {
            &&& is_key_of(key, label@)
            &&& key.well_formed()
            &&& label_number(label@) == Some(key.value())
        },
{
    if !label.is_ascii() {
        proof {
            let i = choose|i: int|
                0 <= i < label@.len() && !('\0' <= #[trigger] label@[i] <= '\u{7f}');
            lemma_not_ascii_not_number(label@, i);
        }
        return None;
    }
    let bytes = label.as_bytes();
    proof {
        is_ascii_spec_bytes(label);
    }
    let n: usize = bytes.len();
    let negative: bool = n > 0 && bytes[0] == 45u8;
    let start: usize = if n > 0 && (bytes[0] == 43u8 || bytes[0] == 45u8) {
        1
    } else {
        0
    };
    let ghost written = unsigned_part(label@);
    if start == n {
        return None;
    }
    let mut digits: Vec<u8> = Vec::new();
    let mut i: usize = start;
    while i < n
        invariant
            start <= i <= n,
            n == bytes.len(),
            n == label@.len(),
            is_ascii_chars(label@),
            bytes@ == Seq::new(label@.len(), |j: int| label@[j] as u8),
            written == unsigned_part(label@),
            written.len() == n - start,
            forall|j: int| 0 <= j < written.len() ==> written[j] == label@[j + start],
            all_digits(written.take(i - start)),
            digits@ == digit_values(written.take(i - start)),
        decreases n - i,
    {
        let b: u8 = bytes[i];
        if b < 48u8 || b > 57u8 {
            assert(!is_digit(written[i - start]));
            return None;
        }
        let ghost before = digits@;
        digits.push(b - 48u8);
        assert(digits@ =~= digit_values(written.take(i - start + 1))) by {
            assert(written.take(i - start + 1).drop_last() =~= written.take(i - start));
            assert(digit_values(written.take(i - start + 1)).drop_last() =~= before);
        }
        i += 1;
    }
    assert(written.take(i - start) =~= written);
    let key = LabelKey { negative, digits };
    proof {
        lemma_key_of(key, label@);
    }
    Some(key)
}

/// The distinct labels of `labels` that are not empty, each at the place of
/// its first appearance.
pub open spec fn distinct_labels(labels: Seq<Seq<char>>) -> Seq<Seq<char>>
    decreases labels.len(),
{
    if labels.len() == 0 {
        Seq::empty()
    } else {
        let earlier = distinct_labels(labels.drop_last());
        let label = labels.last();
        if label.len() == 0 || earlier.contains(label) {
            earlier
        } else {
            earlier.push(label)
        }
    }
}

/// `x` occurs in `labels` before any `y` does.
pub open spec fn appears_before(labels: Seq<Seq<char>>, x: Seq<char>, y: Seq<char>) -> bool {
    exists|i: int|
        #![trigger labels[i]]
        0 <= i < labels.len() && labels[i] == x && forall|j: int|
            0 <= j <= i ==> #[trigger] labels[j] != y
}

/// What `distinct_labels` keeps: every label of `labels` that is not empty,
/// once, and in the order in which the labels first appear.
pub proof fn lemma_distinct_labels(labels: Seq<Seq<char>>)
    ensures
        distinct_labels(labels).no_duplicates(),
        distinct_labels(labels).len() <= labels.len(),
        forall|l: Seq<char>| #[trigger]
            distinct_labels(labels).contains(l) <==> l.len() > 0 && labels.contains(l),
        forall|a: int, b: int|
            0 <= a < b < distinct_labels(labels).len() ==> #[trigger] appears_before(
                labels,
                distinct_labels(labels)[a],
                distinct_labels(labels)[b],
            ),
    decreases labels.len(),
{
    let kept = distinct_labels(labels);
    if labels.len() == 0 {
        assert forall|l: Seq<char>| #[trigger] kept.contains(l) <==> l.len() > 0 && labels.contains(
            l,
        ) by {}
    } else {
        let front = labels.drop_last();
        let earlier = distinct_labels(front);
        let label = labels.last();
        lemma_distinct_labels(front);
        assert forall|l: Seq<char>| #[trigger] kept.contains(l) <==> l.len() > 0 && labels.contains(
            l,
        ) by {
            if kept.contains(l) {
                let k = choose|k: int| 0 <= k < kept.len() && kept[k] == l;
                if k < earlier.len() {
                    assert(earlier[k] == l);
                    assert(earlier.contains(l));
                    let i = choose|i: int| 0 <= i < front.len() && front[i] == l;
                    assert(labels[i] == l);
                } else {
                    assert(l == label);
                    assert(labels[labels.len() - 1] == l);
                }
            }
            if l.len() > 0 && labels.contains(l) {
                let i = choose|i: int| 0 <= i < labels.len() && labels[i] == l;
                if i < front.len() {
                    assert(front[i] == l);
                    assert(front.contains(l));
                    assert(earlier.contains(l));
                    let k = choose|k: int| 0 <= k < earlier.len() && earlier[k] == l;
                    assert(kept[k] == l);
                } else if earlier.contains(l) {
                    let k = choose|k: int| 0 <= k < earlier.len() && earlier[k] == l;
                    assert(kept[k] == l);
                } else {
                    assert(kept[kept.len() - 1] == l);
                }
            }
        }
        assert forall|a: int, b: int| 0 <= a < b < kept.len() implies #[trigger] appears_before(
            labels,
            kept[a],
            kept[b],
        ) by {
            if b < earlier.len() {
                assert(earlier[a] == kept[a] && earlier[b] == kept[b]);
                assert(appears_before(front, earlier[a], earlier[b]));
                let i = choose|i: int|
                    #![trigger front[i]]
                    0 <= i < front.len() && front[i] == earlier[a] && forall|j: int|
                        0 <= j <= i ==> #[trigger] front[j] != earlier[b];
                assert(labels[i] == kept[a]);
                assert forall|j: int| 0 <= j <= i implies #[trigger] labels[j] != kept[b] by {
                    assert(front[j] != earlier[b]);
                }
            } else {
                assert(kept[b] == label);
                assert(earlier[a] == kept[a]);
                assert(earlier.contains(kept[a]));
                assert(front.contains(kept[a]));
                let i = choose|i: int| 0 <= i < front.len() && front[i] == kept[a];
                assert(labels[i] == kept[a]);
                assert forall|j: int| 0 <= j <= i implies #[trigger] labels[j] != kept[b] by {
                    if labels[j] == label {
                        assert(front[j] == label);
                        assert(front.contains(label));
                        assert(earlier.contains(label));
                    }
                }
            }
        }
    }
}

/// The label of row `i`: the `i`-th label where there is one, else the empty
/// label, which marks a point without a label.
pub open spec fn row_label(labels: Option<Seq<Seq<char>>>, i: int) -> Seq<char> {
    match labels {
        Some(given) => if 0 <= i < given.len() {
            given[i]
        } else {
            Seq::empty()
        },
        None => Seq::empty(),
    }
}

/// The labels of the first `n` rows.
pub open spec fn row_labels(n: nat, labels: Option<Seq<Seq<char>>>) -> Seq<Seq<char>> {
    Seq::new(n, |i: int| row_label(labels, i))
}

/// Whether `label` is one of `list`.
pub fn contains_label(list: &Vec<String>, label: &String) -> (found: bool)
    ensures
        found == list.deep_view().contains(label@),
{
    let mut i: usize = 0;
    while i < list.len()
        invariant
            i <= list.len(),
            forall|j: int| 0 <= j < i ==> list.deep_view()[j] != label@,
        decreases list.len() - i,
    {
        if list[i] == *label {
            assert(list.deep_view()[i as int] == label@);
            return true;
        }
        i += 1;
    }
    false
}

/// The distinct labels of `labels` that are not empty, in order of first
/// appearance.
pub fn distinct(labels: &Vec<String>) -> (kept: Vec<String>)
    ensures
        kept.deep_view() == distinct_labels(labels.deep_view()),
{
    let ghost all = labels.deep_view();
    let mut kept: Vec<String> = Vec::new();
    let mut i: usize = 0;
    while i < labels.len()
        invariant
            i <= labels.len(),
            all == labels.deep_view(),
            kept.deep_view() == distinct_labels(all.take(i as int)),
        decreases labels.len() - i,
    {
        let label = &labels[i];
        assert(all.take(i + 1).drop_last() =~= all.take(i as int));
        if !label.as_str().is_empty() && !contains_label(&kept, label) {
            kept.push(label.clone());
        }
        i += 1;
    }
    assert(all.take(i as int) =~= all);
    kept
}

/// The label of each of the first `n` rows.
pub fn labels_of_rows(n: usize, labels: &Option<Vec<String>>) -> (each: Vec<String>)
    ensures
        each.len() == n,
        each.deep_view() == row_labels(n as nat, labels.deep_view()),
{
    let mut each: Vec<String> = Vec::new();
    let mut i: usize = 0;
    while i < n
        invariant
            i <= n,
            each.len() == i,
            forall|j: int| 0 <= j < i ==> each.deep_view()[j] == row_label(labels.deep_view(), j),
        decreases n - i,
    {
        let label: String = match labels {
            Some(given) => if i < given.len() {
                given[i].clone()
            } else {
                String::new()
            },
            None => String::new(),
        };
        each.push(label);
        i += 1;
    }
    each
}

} // verus!
