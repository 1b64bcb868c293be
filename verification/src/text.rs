//! Plain text: comparison, decimal numbers, splitting, joining and substitution.

use vstd::prelude::*;
use vstd::string::*;
use vstd::utf8::*;

verus! {

/// `String::push` appends one character at the end of the string.
pub assume_specification[ String::push ](s: &mut String, ch: char)
    ensures
        final(s)@ == old(s)@.push(ch),
;

/// The outcome of comparing two texts.
#[derive(Clone, Copy, PartialEq, Eq, Structural)]
pub enum Order {
    Before,
    Same,
    After,
}

/// `a` and `b` agree before position `k`, where `a` has ended or holds the smaller byte.
pub open spec fn falls_behind_at(a: Seq<u8>, b: Seq<u8>, k: int) -> bool {
    &&& 0 <= k < b.len()
    &&& k <= a.len()
    &&& forall|i: int| 0 <= i < k ==> a[i] == b[i]
    &&& k < a.len() ==> a[k] < b[k]
}

/// Lexicographic order of byte strings.
pub open spec fn bytes_before(a: Seq<u8>, b: Seq<u8>) -> bool {
    exists|k: int| falls_behind_at(a, b, k)
}

/// The order of texts: lexicographic in their UTF-8 bytes.
pub open spec fn text_before(a: Seq<char>, b: Seq<char>) -> bool {
    bytes_before(encode_utf8(a), encode_utf8(b))
}

/// Distinct texts have distinct encodings.
pub proof fn lemma_encoding_injective(a: Seq<char>, b: Seq<char>)
    requires
        encode_utf8(a) == encode_utf8(b),
    ensures
        a == b,
{
    encode_utf8_decode_utf8(a);
    encode_utf8_decode_utf8(b);
}

/// No text comes before itself.
pub proof fn lemma_before_irreflexive(a: Seq<char>)
    ensures
        !text_before(a, a),
{
}

/// The order of texts is transitive.
pub proof fn lemma_before_transitive(a: Seq<char>, b: Seq<char>, c: Seq<char>)
    requires
        text_before(a, b),
        text_before(b, c),
    ensures
        text_before(a, c),
{
    let (x, y, z) = (encode_utf8(a), encode_utf8(b), encode_utf8(c));
    let j = choose|j: int| falls_behind_at(x, y, j);
    let k = choose|k: int| falls_behind_at(y, z, k);
    let m = if j < k { j } else { k };
    assert(falls_behind_at(x, z, m));
}

/// Two byte strings that agree so far and differ somewhere are in order one way or the other.
proof fn lemma_bytes_comparable(a: Seq<u8>, b: Seq<u8>, k: int)
    requires
        0 <= k <= a.len(),
        k <= b.len(),
        forall|i: int| 0 <= i < k ==> a[i] == b[i],
        a != b,
    ensures
        bytes_before(a, b) || bytes_before(b, a),
    decreases a.len() - k,
{
    if k == a.len() || k == b.len() {
        if k < b.len() {
            assert(falls_behind_at(a, b, k));
        } else if k < a.len() {
            assert(falls_behind_at(b, a, k));
        } else {
            assert(a =~= b);
        }
    } else if a[k] < b[k] {
        assert(falls_behind_at(a, b, k));
    } else if b[k] < a[k] {
        assert(falls_behind_at(b, a, k));
    } else {
        lemma_bytes_comparable(a, b, k + 1);
    }
}

/// Of two distinct texts, one comes before the other.
pub proof fn lemma_before_total(a: Seq<char>, b: Seq<char>)
    requires
        a != b,
    ensures
        text_before(a, b) || text_before(b, a),
{
    if encode_utf8(a) == encode_utf8(b) {
        lemma_encoding_injective(a, b);
    }
    lemma_bytes_comparable(encode_utf8(a), encode_utf8(b), 0);
}

/// Compares two texts by their bytes.
pub fn text_order(a: &str, b: &str) -> (order: Order)
    ensures
        match order {
            Order::Before => text_before(a@, b@) && a@ != b@,
            Order::Same => a@ == b@,
            Order::After => text_before(b@, a@) && a@ != b@,
        },
{
    let x = a.as_bytes();
    let y = b.as_bytes();
    let mut i: usize = 0;
    while i < x.len() && i < y.len()
        invariant
            i <= x.len(),
            i <= y.len(),
            x@ == encode_utf8(a@),
            y@ == encode_utf8(b@),
            forall|j: int| 0 <= j < i ==> x@[j] == y@[j],
        decreases x.len() - i,
    {
        if x[i] < y[i] {
            assert(falls_behind_at(x@, y@, i as int));
            return Order::Before;
        }
        if y[i] < x[i] {
            assert(falls_behind_at(y@, x@, i as int));
            return Order::After;
        }
        i += 1;
    }
    if i < y.len() {
        assert(falls_behind_at(x@, y@, i as int));
        Order::Before
    } else if i < x.len() {
        assert(falls_behind_at(y@, x@, i as int));
        Order::After
    } else {
        proof {
            assert(x@ =~= y@);
            lemma_encoding_injective(a@, b@);
        }
        Order::Same
    }
}

/// Whether two texts are the same.
pub fn same_text(a: &str, b: &str) -> (same: bool)
    ensures
        same == (a@ == b@),
{
    let x = a.as_bytes();
    let y = b.as_bytes();
    if x.len() != y.len() {
        return false;
    }
    let mut i: usize = 0;
    while i < x.len()
        invariant
            i <= x.len(),
            x.len() == y.len(),
            x@ == encode_utf8(a@),
            y@ == encode_utf8(b@),
            forall|j: int| 0 <= j < i ==> x@[j] == y@[j],
        decreases x.len() - i,
    {
        if x[i] != y[i] {
            return false;
        }
        i += 1;
    }
    proof {
        assert(x@ =~= y@);
        lemma_encoding_injective(a@, b@);
    }
    true
}

/// The characters of a text.
pub fn chars_of(s: &str) -> (chars: Vec<char>)
    ensures
        chars@ == s@,
{
    let mut chars: Vec<char> = Vec::new();
    for c in iter: s.chars()
        invariant
            iter.seq() == s@,
            chars@ == s@.take(iter.index()),
    {
        chars.push(c);
        assert(s@.take(iter.index() + 1) =~= s@.take(iter.index()).push(c));
    }
    assert(s@.take(s@.len() as int) =~= s@);
    chars
}

/// The text made of `chars[from..to]`.
pub fn text_of(chars: &Vec<char>, from: usize, to: usize) -> (s: String)
    requires
        from <= to <= chars@.len(),
    ensures
        s@ == chars@.subrange(from as int, to as int),
{
    let mut s = String::new();
    let mut i: usize = from;
    while i < to
        invariant
            from <= i <= to <= chars@.len(),
            s@ == chars@.subrange(from as int, i as int),
        decreases to - i,
    {
        s.push(chars[i]);
        assert(chars@.subrange(from as int, i + 1) =~= chars@.subrange(from as int, i as int).push(
            chars@[i as int],
        ));
        i += 1;
    }
    s
}

/// The character for a decimal digit.
pub open spec fn digit(d: int) -> char {
    (48 + d) as char
}

/// The decimal digits of a number, most significant first.
pub open spec fn decimal(n: nat) -> Seq<char>
    decreases n,
{
    if n < 10 {
        seq![digit(n as int)]
    } else {
        decimal(n / 10).push(digit((n % 10) as int))
    }
}

/// Writes a number in decimal.
pub fn decimal_text(n: u64) -> (s: String)
    ensures
        s@ == decimal(n as nat),
    decreases n,
{
    let mut s = if n < 10 {
        String::new()
    } else {
        decimal_text(n / 10)
    };
    let d: u8 = (n % 10) as u8;
    s.push((48 + d) as char);
    s
}

/// A whole number in decimal, with a leading minus sign if it is negative.
pub open spec fn signed_decimal(n: int) -> Seq<char> {
    if n < 0 {
        seq!['-'] + decimal((-n) as nat)
    } else {
        decimal(n as nat)
    }
}

/// `s` with every character `from` turned into `to`.
pub open spec fn with_char_replaced(s: Seq<char>, from: char, to: char) -> Seq<char> {
    s.map_values(|c: char| if c == from { to } else { c })
}

/// Turns every character `from` of a text into `to`.
pub fn replace_char(s: &str, from: char, to: char) -> (r: String)
    ensures
        r@ == with_char_replaced(s@, from, to),
{
    let chars = chars_of(s);
    let mut r = String::new();
    let mut i: usize = 0;
    while i < chars.len()
        invariant
            i <= chars@.len(),
            chars@ == s@,
            r@ == with_char_replaced(s@.take(i as int), from, to),
        decreases chars.len() - i,
    {
        if chars[i] == from {
            r.push(to);
        } else {
            r.push(chars[i]);
        }
        assert(s@.take(i + 1) =~= s@.take(i as int).push(s@[i as int]));
        assert(r@ =~= with_char_replaced(s@.take(i + 1), from, to));
        i += 1;
    }
    assert(s@.take(i as int) =~= s@);
    r
}

/// `part` stands in `s` from position `p` on.
pub open spec fn stands(s: Seq<char>, part: Seq<char>, p: int) -> bool {
    0 <= p && p + part.len() <= s.len() && s.subrange(p, p + part.len()) == part
}

/// The character `c` is at none of the positions from `from` up to `to`.
pub open spec fn lacks(s: Seq<char>, c: char, from: int, to: int) -> bool {
    forall|k: int| from <= k < to ==> #[trigger] s[k] != c
}

/// Whether `part` stands at the start of `s`.
pub open spec fn begins_with(s: Seq<char>, part: Seq<char>) -> bool {
    part.len() <= s.len() && s.take(part.len() as int) == part
}

/// Whether a text starts with another.
pub fn starts_with(s: &str, part: &str) -> (r: bool)
    ensures
        r == begins_with(s@, part@),
{
    let a = chars_of(s);
    let b = chars_of(part);
    assert(s@.skip(0) =~= s@);
    stands_at(&a, 0, &b)
}

/// Whether `part` stands in `s` at position `at`.
fn stands_at(s: &Vec<char>, at: usize, part: &Vec<char>) -> (r: bool)
    requires
        at <= s@.len(),
    ensures
        r == begins_with(s@.skip(at as int), part@),
{
    if part.len() > s.len() - at {
        return false;
    }
    let mut i: usize = 0;
    while i < part.len()
        invariant
            i <= part@.len(),
            at + part.len() <= s.len(),
            forall|j: int| 0 <= j < i ==> s@[at + j] == part@[j],
        decreases part.len() - i,
    {
        if s[at + i] != part[i] {
            assert(s@.skip(at as int).take(part@.len() as int)[i as int] != part@[i as int]);
            return false;
        }
        i += 1;
    }
    assert(s@.skip(at as int).take(part@.len() as int) =~= part@);
    true
}

/// `s` without the occurrences of `cut`, found from left to right without overlap.
pub open spec fn with_removed(s: Seq<char>, cut: Seq<char>) -> Seq<char>
    decreases s.len(),
{
    if cut.len() == 0 || s.len() == 0 {
        s
    } else if begins_with(s, cut) {
        with_removed(s.skip(cut.len() as int), cut)
    } else {
        seq![s[0]] + with_removed(s.skip(1), cut)
    }
}

/// Removes every occurrence of `cut` from a text.
pub fn remove_all(s: &str, cut: &str) -> (r: String)
    ensures
        r@ == with_removed(s@, cut@),
{
    let a = chars_of(s);
    let b = chars_of(cut);
    if b.len() == 0 {
        return s.to_owned();
    }
    let mut r = String::new();
    let mut i: usize = 0;
    assert(s@.skip(0) =~= s@);
    while i < a.len()
        invariant
            i <= a@.len(),
            a@ == s@,
            b@ == cut@,
            b@.len() > 0,
            r@ + with_removed(s@.skip(i as int), cut@) == with_removed(s@, cut@),
        decreases a.len() - i,
    {
        let ghost rest = s@.skip(i as int);
        if stands_at(&a, i, &b) {
            assert(rest.skip(cut@.len() as int) =~= s@.skip(i + cut@.len()));
            i += b.len();
        } else {
            assert(rest.skip(1) =~= s@.skip(i + 1));
            let ghost before = r@;
            r.push(a[i]);
            assert(r@ + with_removed(rest.skip(1), cut@) =~= before + (seq![rest[0]]
                + with_removed(rest.skip(1), cut@)));
            i += 1;
        }
    }
    assert(r@ + with_removed(s@.skip(i as int), cut@) =~= r@);
    r
}

/// The pieces of `s` between the separators; there is one more piece than separators.
pub open spec fn pieces(s: Seq<char>, separator: char) -> Seq<Seq<char>>
    decreases s.len(),
{
    if s.len() == 0 {
        seq![Seq::<char>::empty()]
    } else {
        let before = pieces(s.drop_last(), separator);
        if s.last() == separator {
            before.push(Seq::<char>::empty())
        } else {
            before.drop_last().push(before.last().push(s.last()))
        }
    }
}

/// A list of texts, as character sequences.
pub open spec fn views(texts: Seq<String>) -> Seq<Seq<char>> {
    texts.map_values(|t: String| t@)
}

/// There is at least one piece.
pub proof fn lemma_pieces_nonempty(s: Seq<char>, separator: char)
    ensures
        pieces(s, separator).len() >= 1,
    decreases s.len(),
{
    if s.len() > 0 {
        lemma_pieces_nonempty(s.drop_last(), separator);
    }
}

/// Splits a text at every separator.
pub fn split_at_char(s: &str, separator: char) -> (parts: Vec<String>)
    ensures
        views(parts@) == pieces(s@, separator),
{
    let chars = chars_of(s);
    let mut parts: Vec<String> = Vec::new();
    let mut current = String::new();
    let mut i: usize = 0;
    assert(views(parts@).push(current@) =~= pieces(s@.take(0), separator));
    while i < chars.len()
        invariant
            i <= chars@.len(),
            chars@ == s@,
            views(parts@).push(current@) == pieces(s@.take(i as int), separator),
        decreases chars.len() - i,
    {
        let ghost so_far = pieces(s@.take(i as int), separator);
        assert(s@.take(i + 1).drop_last() =~= s@.take(i as int));
        assert(so_far.drop_last() =~= views(parts@));
        assert(so_far.last() == current@);
        if chars[i] == separator {
            let ghost done = views(parts@);
            let ghost last = current@;
            parts.push(current);
            current = String::new();
            assert(views(parts@) =~= done.push(last));
        } else {
            current.push(chars[i]);
        }
        i += 1;
    }
    assert(s@.take(i as int) =~= s@);
    let ghost done = views(parts@);
    let ghost last = current@;
    parts.push(current);
    assert(views(parts@) =~= done.push(last));
    parts
}

/// A line without the carriage return that ends it.
pub open spec fn without_return(line: Seq<char>) -> Seq<char> {
    if line.len() > 0 && line.last() == '\r' {
        line.drop_last()
    } else {
        line
    }
}

/// The lines of a text. A line ends with a line feed, or with a carriage return and a line
/// feed; what follows the last line feed is a line of its own unless it is empty.
pub open spec fn lines(s: Seq<char>) -> Seq<Seq<char>> {
    let parts = pieces(s, '\n');
    let ended = parts.drop_last().map_values(|line: Seq<char>| without_return(line));
    if parts.last().len() == 0 {
        ended
    } else {
        ended.push(parts.last())
    }
}

/// Splits a text into its lines.
pub fn lines_of(s: &str) -> (r: Vec<String>)
    ensures
        views(r@) == lines(s@),
{
    let mut parts = split_at_char(s, '\n');
    let ghost all = views(parts@);
    proof {
        lemma_pieces_nonempty(s@, '\n');
        assert(all.len() == parts@.len());
    }
    let last = parts.pop();
    let mut r: Vec<String> = Vec::new();
    let mut i: usize = 0;
    let ghost strip = |line: Seq<char>| without_return(line);
    assert(views(parts@) =~= all.drop_last());
    while i < parts.len()
        invariant
            i <= parts@.len(),
            views(parts@) == all.drop_last(),
            strip == (|line: Seq<char>| without_return(line)),
            views(r@) == all.drop_last().take(i as int).map_values(strip),
        decreases parts.len() - i,
    {
        let chars = chars_of(&parts[i]);
        assert(chars@ == views(parts@)[i as int]);
        let end: usize = if chars.len() > 0 && chars[chars.len() - 1] == '\r' {
            chars.len() - 1
        } else {
            chars.len()
        };
        let line = text_of(&chars, 0, end);
        assert(line@ =~= without_return(chars@));
        let ghost done = views(r@);
        r.push(line);
        assert(views(r@) =~= done.push(line@));
        assert(all.drop_last().take(i + 1) =~= all.drop_last().take(i as int).push(
            all.drop_last()[i as int],
        ));
        assert(views(r@) =~= all.drop_last().take(i + 1).map_values(strip));
        i += 1;
    }
    assert(all.drop_last().take(i as int) =~= all.drop_last());
    match last {
        Some(line) => {
            assert(line@ == all.last());
            if !line.as_str().is_empty() {
                let ghost done = views(r@);
                r.push(line);
                assert(views(r@) =~= done.push(line@));
            }
        },
        None => {},
    }
    r
}

/// The texts one after the other.
pub open spec fn concat(parts: Seq<Seq<char>>) -> Seq<char>
    decreases parts.len(),
{
    if parts.len() == 0 {
        Seq::empty()
    } else {
        concat(parts.drop_last()) + parts.last()
    }
}

/// The texts one after the other with a separator between neighbours.
pub open spec fn joined(parts: Seq<Seq<char>>, separator: Seq<char>) -> Seq<char>
    decreases parts.len(),
{
    if parts.len() == 0 {
        Seq::empty()
    } else {
        joined(parts.drop_last(), separator) + (if parts.len() == 1 {
            Seq::empty()
        } else {
            separator
        }) + parts.last()
    }
}

/// Joins texts with a separator.
pub fn join(parts: &Vec<String>, separator: &str) -> (r: String)
    ensures
        r@ == joined(views(parts@), separator@),
{
    let mut r = String::new();
    let mut i: usize = 0;
    while i < parts.len()
        invariant
            i <= parts@.len(),
            r@ == joined(views(parts@).take(i as int), separator@),
        decreases parts.len() - i,
    {
        if i > 0 {
            r.append(separator);
        }
        r.append(&parts[i]);
        let ghost next = views(parts@).take(i + 1);
        assert(next.drop_last() =~= views(parts@).take(i as int));
        assert(r@ =~= joined(next, separator@));
        i += 1;
    }
    assert(views(parts@).take(i as int) =~= views(parts@));
    r
}

} // verus!
