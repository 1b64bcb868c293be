//! What holds of the operations on texts.

use crate::table;
use crate::text;
use vstd::prelude::*;
use vstd::string::*;
use vstd::utf8::*;

verus! {

// ---- order ----

/// Of two texts whose bytes agree up to a place, the one with the smaller byte there comes first,
/// whatever follows; and a text comes before every longer one that begins with it.
pub proof fn law_first_byte_that_differs_decides(
    a: Seq<char>,
    b: Seq<char>,
    common: Seq<u8>,
    x: u8,
    y: u8,
    rest_a: Seq<u8>,
    rest_b: Seq<u8>,
)
    requires
        encode_utf8(b) == common.push(y) + rest_b,
    ensures
        encode_utf8(a) == common.push(x) + rest_a && x < y ==> text::text_before(a, b)
            && !text::text_before(b, a),
        encode_utf8(a) == common ==> text::text_before(a, b) && !text::text_before(b, a),
{
    let (s, t) = (encode_utf8(a), encode_utf8(b));
    let k = common.len() as int;
    assert(t[k] == y);
    assert forall|i: int| 0 <= i < k implies t[i] == common[i] by {}
    if s == common.push(x) + rest_a && x < y {
        assert(s[k] == x);
        assert forall|i: int| 0 <= i < k implies s[i] == t[i] by {
            assert(s[i] == common[i]);
        }
        assert(text::falls_behind_at(s, t, k));
        if text::text_before(b, a) {
            let m = choose|m: int| text::falls_behind_at(t, s, m);
            assert(m > k);
        }
    }
    if s == common {
        assert(text::falls_behind_at(s, t, k));
        if text::text_before(b, a) {
            let m = choose|m: int| text::falls_behind_at(t, s, m);
        }
    }
}

/// In a sorted list, the first byte in which two texts differ is smaller in the earlier one, and no
/// text comes behind one that goes on from it.
pub proof fn law_bytes_go_up_in_sorted_lists(
    keys: Seq<Seq<char>>,
    i: int,
    j: int,
    common: Seq<u8>,
    x: u8,
    y: u8,
    rest_a: Seq<u8>,
    rest_b: Seq<u8>,
)
    requires
        table::strictly_sorted(keys),
        0 <= i < j < keys.len(),
        encode_utf8(keys[i]) == common.push(x) + rest_a,
    ensures
        encode_utf8(keys[j]) == common.push(y) + rest_b && x != y ==> x < y,
        encode_utf8(keys[j]) != common,
        keys[i] != keys[j],
{
    let (a, b) = (keys[i], keys[j]);
    assert(text::text_before(a, b));
    law_first_byte_that_differs_decides(b, a, common, y, x, rest_b, rest_a);
}

// ---- numbers ----

/// The number that decimal digits stand for.
pub open spec fn number_of(digits: Seq<char>) -> int
    decreases digits.len(),
{
    if digits.len() == 0 {
        0
    } else {
        10 * number_of(digits.drop_last()) + (digits.last() as int - '0' as int)
    }
}

/// A number in decimal consists of digits, does not begin with a zero unless it is one, and is
/// read back as the number.
pub proof fn law_decimal_reads_back(n: nat)
    ensures
        number_of(text::decimal(n)) == n,
        text::decimal(n).len() >= 1,
        forall|i: int|
            0 <= i < text::decimal(n).len() ==> '0' as int <= (#[trigger] text::decimal(n)[i]) as int
                <= '9' as int,
        n > 0 ==> text::decimal(n)[0] != '0',
        n == 0 ==> text::decimal(n) == seq!['0'],
    decreases n,
{
    let d = text::decimal(n);
    if n < 10 {
        assert(d.drop_last() =~= Seq::empty());
        assert(number_of(d.drop_last()) == 0);
        assert(d.last() == d[0]);
    } else {
        law_decimal_reads_back(n / 10);
        let shorter = text::decimal(n / 10);
        assert(d.drop_last() =~= shorter);
        assert(d[0] == shorter[0]);
        assert forall|i: int| 0 <= i < d.len() implies '0' as int <= (#[trigger] d[i]) as int
            <= '9' as int by {
            if i < shorter.len() {
                assert(d[i] == shorter[i]);
            }
        }
    }
}

/// Distinct numbers are written differently.
pub proof fn law_decimal_distinct(m: nat, n: nat)
    requires
        text::decimal(m) == text::decimal(n),
    ensures
        m == n,
{
    law_decimal_reads_back(m);
    law_decimal_reads_back(n);
}

/// A negative number is written as a minus sign and its size.
pub proof fn law_signed_decimal(n: int)
    ensures
        n < 0 ==> text::signed_decimal(n)[0] == '-' && number_of(text::signed_decimal(n).skip(1))
            == -n,
        n >= 0 ==> number_of(text::signed_decimal(n)) == n && text::signed_decimal(n)[0] != '-',
{
    if n < 0 {
        law_decimal_reads_back((-n) as nat);
        assert(text::signed_decimal(n).skip(1) =~= text::decimal((-n) as nat));
    } else {
        law_decimal_reads_back(n as nat);
        let d = text::decimal(n as nat);
        assert('0' as int <= d[0] as int);
    }
}

// ---- substitution ----

/// Every character but `from` stays, and every `from` becomes `to`.
pub proof fn law_replaced_char_by_char(s: Seq<char>, from: char, to: char, i: int)
    requires
        0 <= i < s.len(),
    ensures
        text::with_char_replaced(s, from, to).len() == s.len(),
        s[i] == from ==> text::with_char_replaced(s, from, to)[i] == to,
        s[i] != from ==> text::with_char_replaced(s, from, to)[i] == s[i],
{
}

/// A text begins with another exactly if something can be put behind the other to get it.
pub proof fn law_begins_with_means_continued(s: Seq<char>, part: Seq<char>)
    ensures
        text::begins_with(s, part) <==> exists|rest: Seq<char>| s == #[trigger] (part + rest),
{
    if text::begins_with(s, part) {
        let rest = s.skip(part.len() as int);
        assert(s =~= part + rest);
    }
    if exists|rest: Seq<char>| s == #[trigger] (part + rest) {
        let rest = choose|rest: Seq<char>| s == #[trigger] (part + rest);
        assert(s.take(part.len() as int) =~= part);
    }
}

/// A part that does not stand in a text is not removed.
pub proof fn law_nothing_removed(s: Seq<char>, cut: Seq<char>)
    requires
        cut.len() == 0 || forall|p: int| !#[trigger] text::stands(s, cut, p),
    ensures
        text::with_removed(s, cut) == s,
    decreases s.len(),
{
    if cut.len() > 0 && s.len() > 0 {
        if text::begins_with(s, cut) {
            assert(s.subrange(0, cut.len() as int) =~= s.take(cut.len() as int));
            assert(text::stands(s, cut, 0));
        }
        let rest = s.skip(1);
        assert forall|p: int| !#[trigger] text::stands(rest, cut, p) by {
            if text::stands(rest, cut, p) {
                assert(s.subrange(p + 1, p + 1 + cut.len()) =~= rest.subrange(p, p + cut.len()));
                assert(text::stands(s, cut, p + 1));
            }
        }
        law_nothing_removed(rest, cut);
        assert(seq![s[0]] + rest =~= s);
    }
}

/// What stands before the first place of a part stays, the part is left out there, and the rest
/// is treated in the same way.
pub proof fn law_first_place_removed(s: Seq<char>, cut: Seq<char>, p: int)
    requires
        cut.len() > 0,
        text::stands(s, cut, p),
        forall|q: int| q < p ==> !#[trigger] text::stands(s, cut, q),
    ensures
        text::with_removed(s, cut) == s.take(p) + text::with_removed(s.skip(p + cut.len()), cut),
    decreases s.len(),
{
    let rest = s.skip(1);
    if p == 0 {
        assert(s.take(cut.len() as int) =~= s.subrange(0, cut.len() as int));
        assert(s.take(0) + text::with_removed(s.skip(cut.len() as int), cut)
            =~= text::with_removed(s.skip(cut.len() as int), cut));
    } else {
        if text::begins_with(s, cut) {
            assert(s.subrange(0, cut.len() as int) =~= s.take(cut.len() as int));
            assert(text::stands(s, cut, 0));
        }
        assert(rest.subrange(p - 1, p - 1 + cut.len()) =~= s.subrange(p, p + cut.len()));
        assert forall|q: int| q < p - 1 implies !#[trigger] text::stands(rest, cut, q) by {
            if text::stands(rest, cut, q) {
                assert(s.subrange(q + 1, q + 1 + cut.len()) =~= rest.subrange(q, q + cut.len()));
                assert(text::stands(s, cut, q + 1));
            }
        }
        law_first_place_removed(rest, cut, p - 1);
        assert(rest.skip(p - 1 + cut.len()) =~= s.skip(p + cut.len()));
        assert(seq![s[0]] + (rest.take(p - 1) + text::with_removed(s.skip(p + cut.len()), cut))
            =~= s.take(p) + text::with_removed(s.skip(p + cut.len()), cut));
    }
}

/// A part is removed from between two texts if some character of it is in neither.
pub proof fn law_removed_from_between(
    before: Seq<char>,
    cut: Seq<char>,
    after: Seq<char>,
    mark: char,
    k: int,
)
    requires
        0 <= k < cut.len(),
        cut[k] == mark,
        text::lacks(cut, mark, 0, k),
        text::lacks(before, mark, 0, before.len() as int),
        text::lacks(after, mark, 0, after.len() as int),
    ensures
        text::with_removed(before + cut + after, cut) == before + after,
{
    let s = before + cut + after;
    let n = before.len() as int;
    assert(s.subrange(n, n + cut.len()) =~= cut);
    assert forall|q: int| q < n implies !#[trigger] text::stands(s, cut, q) by {
        if text::stands(s, cut, q) {
            assert(s.subrange(q, q + cut.len())[k] == s[q + k]);
            if q + k < n {
                assert(s[q + k] == before[q + k]);
            } else {
                assert(s[q + k] == cut[q + k - n]);
            }
        }
    }
    law_first_place_removed(s, cut, n);
    assert(s.take(n) =~= before);
    assert(s.skip(n + cut.len()) =~= after);
    assert forall|q: int| !#[trigger] text::stands(after, cut, q) by {
        if text::stands(after, cut, q) {
            assert(after.subrange(q, q + cut.len())[k] == after[q + k]);
        }
    }
    law_nothing_removed(after, cut);
}

// ---- pieces and lines ----

/// The pieces of a text do not hold the separator, and joined by it they are the text again.
pub proof fn law_pieces_joined_again(s: Seq<char>, separator: char)
    ensures
        text::joined(text::pieces(s, separator), seq![separator]) == s,
        forall|i: int|
            0 <= i < text::pieces(s, separator).len() ==> !(#[trigger] text::pieces(
                s,
                separator,
            )[i]).contains(separator),
        text::pieces(s, separator).len() >= 1,
    decreases s.len(),
{
    let all = text::pieces(s, separator);
    if s.len() == 0 {
        assert(all.drop_last() =~= Seq::empty());
        assert(text::joined(all.drop_last(), seq![separator]) =~= Seq::empty());
        assert(text::joined(all, seq![separator]) =~= s);
    } else {
        let shorter = s.drop_last();
        law_pieces_joined_again(shorter, separator);
        let before = text::pieces(shorter, separator);
        let c = s.last();
        assert(shorter.push(c) =~= s);
        if c == separator {
            assert(all.drop_last() =~= before);
            assert(text::joined(all, seq![separator]) =~= s);
        } else {
            assert(all.drop_last() =~= before.drop_last());
            assert(text::joined(all, seq![separator]) =~= text::joined(before, seq![separator]).push(
                c,
            ));
            assert forall|i: int| 0 <= i < all.len() implies !(#[trigger] all[i]).contains(
                separator,
            ) by {
                assert(!before[i].contains(separator));
                if i == all.len() - 1 && all[i].contains(separator) {
                    let k = choose|k: int| 0 <= k < all[i].len() && all[i][k] == separator;
                    assert(before[i][k] == separator);
                }
            }
        }
    }
}

/// Pieces in front of a separator are those of what stands in front of it; the rest follows.
proof fn lemma_pieces_apart(s: Seq<char>, separator: char, t: Seq<char>)
    ensures
        text::pieces(s.push(separator) + t, separator) == text::pieces(s, separator) + text::pieces(
            t,
            separator,
        ),
    decreases t.len(),
{
    law_pieces_joined_again(t, separator);
    if t.len() == 0 {
        assert(s.push(separator) + t =~= s.push(separator));
        assert(s.push(separator).drop_last() =~= s);
        assert(text::pieces(s.push(separator), separator) =~= text::pieces(s, separator)
            + text::pieces(t, separator));
    } else {
        let shorter = t.drop_last();
        lemma_pieces_apart(s, separator, shorter);
        law_pieces_joined_again(shorter, separator);
        let whole = s.push(separator) + t;
        assert(whole.drop_last() =~= s.push(separator) + shorter);
        assert(whole.last() == t.last());
        assert(text::pieces(whole, separator) =~= text::pieces(s, separator) + text::pieces(
            t,
            separator,
        ));
    }
}

/// A text without the separator is one piece.
proof fn lemma_one_piece(s: Seq<char>, separator: char)
    requires
        !s.contains(separator),
    ensures
        text::pieces(s, separator) == seq![s],
    decreases s.len(),
{
    if s.len() == 0 {
        assert(s =~= Seq::empty());
        assert(text::pieces(s, separator) =~= seq![s]);
    } else {
        let shorter = s.drop_last();
        assert(!shorter.contains(separator)) by {
            if shorter.contains(separator) {
                let i = choose|i: int| 0 <= i < shorter.len() && shorter[i] == separator;
                assert(s[i] == separator);
            }
        }
        lemma_one_piece(shorter, separator);
        assert(s[s.len() - 1] == s.last());
        assert(shorter.push(s.last()) =~= s);
        assert(text::pieces(s, separator) =~= seq![s]);
    }
}

/// The first piece ends where the separator first stands; the other pieces are those of the rest.
pub proof fn law_first_piece(first: Seq<char>, separator: char, rest: Seq<char>)
    requires
        !first.contains(separator),
    ensures
        text::pieces(first, separator) == seq![first],
        text::pieces(first.push(separator) + rest, separator) == seq![first] + text::pieces(
            rest,
            separator,
        ),
{
    lemma_one_piece(first, separator);
    lemma_pieces_apart(first, separator, rest);
}

/// A line ends at the first line feed, without a carriage return before it; the other lines are
/// those of the rest. A text without a line feed is one line, unless it is empty.
pub proof fn law_first_line(first: Seq<char>, rest: Seq<char>)
    requires
        !first.contains('\n'),
    ensures
        first.len() > 0 ==> text::lines(first) == seq![first],
        first.len() == 0 ==> text::lines(first) == Seq::<Seq<char>>::empty(),
        first.len() > 0 && first.last() == '\r' ==> text::lines(first.push('\n') + rest) == seq![
            first.drop_last(),
        ] + text::lines(rest),
        first.len() == 0 || first.last() != '\r' ==> text::lines(first.push('\n') + rest) == seq![
            first,
        ] + text::lines(rest),
{
    law_first_piece(first, '\n', rest);
    law_pieces_joined_again(rest, '\n');
    let one = text::pieces(first, '\n');
    assert(one.drop_last() =~= Seq::empty());
    if first.len() > 0 {
        assert(text::lines(first) =~= seq![first]);
    } else {
        assert(text::lines(first) =~= Seq::empty());
    }
    let parts = text::pieces(rest, '\n');
    let all = text::pieces(first.push('\n') + rest, '\n');
    assert(all == seq![first] + parts);
    assert(all.drop_last() =~= seq![first] + parts.drop_last());
    assert(all.last() == parts.last());
    assert(text::lines(first.push('\n') + rest) =~= seq![text::without_return(first)]
        + text::lines(rest));
}

// ---- putting texts together ----

/// Texts put together are put together from their parts.
pub proof fn law_concat_in_parts(a: Seq<Seq<char>>, b: Seq<Seq<char>>)
    ensures
        text::concat(a + b) == text::concat(a) + text::concat(b),
        a.len() == 1 ==> text::concat(a) == a[0],
        a.len() == 0 ==> text::concat(a) == Seq::<char>::empty(),
    decreases b.len(),
{
    if a.len() == 1 {
        assert(a.drop_last() =~= Seq::empty());
        assert(text::concat(a.drop_last()) =~= Seq::empty());
        assert(text::concat(a) =~= a[0]);
    }
    if b.len() == 0 {
        assert(a + b =~= a);
        assert(text::concat(a) + text::concat(b) =~= text::concat(a));
    } else {
        law_concat_in_parts(a, b.drop_last());
        assert((a + b).drop_last() =~= a + b.drop_last());
        assert(text::concat(a + b) =~= text::concat(a) + text::concat(b));
    }
}

/// Between two lists that are joined stands one separator, and a single text has none.
pub proof fn law_joined_in_parts(a: Seq<Seq<char>>, b: Seq<Seq<char>>, separator: Seq<char>)
    ensures
        a.len() > 0 && b.len() > 0 ==> text::joined(a + b, separator) == text::joined(a, separator)
            + separator + text::joined(b, separator),
        a.len() == 1 ==> text::joined(a, separator) == a[0],
        a.len() == 0 ==> text::joined(a, separator) == Seq::<char>::empty(),
    decreases b.len(),
{
    if a.len() == 1 {
        assert(a.drop_last() =~= Seq::empty());
        assert(text::joined(a.drop_last(), separator) =~= Seq::empty());
        assert(text::joined(a, separator) =~= a[0]);
    }
    if a.len() > 0 && b.len() > 0 {
        assert((a + b).drop_last() =~= a + b.drop_last());
        if b.len() == 1 {
            assert(b.drop_last() =~= Seq::empty());
            assert(a + b.drop_last() =~= a);
            assert(text::joined(b.drop_last(), separator) =~= Seq::empty());
            assert(text::joined(b, separator) =~= b[0]);
        } else {
            law_joined_in_parts(a, b.drop_last(), separator);
        }
        assert(text::joined(a + b, separator) =~= text::joined(a, separator) + separator
            + text::joined(b, separator));
    }
}

} // verus!
