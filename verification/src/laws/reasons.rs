//! What holds of the reason that is given for an evaluation error.

use crate::analyzer;
use crate::analyzer::LocatedModel;
use crate::laws;
use crate::text;
use vstd::prelude::*;
use vstd::string::*;

verus! {

/// None of the errors that are told in a special way is in the text.
pub open spec fn nothing_special(error: Seq<char>) -> bool {
    &&& forall|p: int, e: int| !#[trigger] analyzer::tells_missing(error, p, e)
    &&& forall|p: int, i: int, j: int, e: int| !#[trigger] analyzer::tells_broken(error, p, i, j, e)
    &&& forall|p: int, i: int, j: int, k: int, e: int|
        !#[trigger] analyzer::tells_unfree(error, p, i, j, k, e)
    &&& forall|p: int, e: int| !#[trigger] analyzer::tells_missing_arg(error, p, e)
}

/// The first place of a text is the only one that nothing comes before.
proof fn lemma_first_place(s: Seq<char>, start: Seq<char>, p: int, q: int)
    requires
        text::stands(s, start, p),
        text::stands(s, start, q),
        analyzer::not_before(s, start, p),
        analyzer::not_before(s, start, q),
    ensures
        p == q,
{
}

/// If nothing special is in an error and some line has `error: ` behind four spaces, the reason is
/// that line from `error: ` on, up to its line feed, whatever characters it has.
pub proof fn law_reason_is_rest_of_line(
    error: Seq<char>,
    reason: Option<Seq<char>>,
    before: Seq<char>,
    line: Seq<char>,
    after: Seq<char>,
)
    requires
        analyzer::explains(error, reason),
        error == before + "    error: "@ + line + after,
        nothing_special(error),
        analyzer::not_before(error, "    error: "@, before.len() as int),
        !line.contains('\n'),
        after.len() == 0 || after[0] == '\n',
    ensures
        reason == Some("error: "@ + line),
{
    lemma_line_parts(before, line, after);
    let p = before.len() as int;
    lemma_other_reason(error, reason, p, p + 11 + line.len());
}

/// Where the parts of an error with a line of its own begin and end.
proof fn lemma_line_parts(before: Seq<char>, line: Seq<char>, after: Seq<char>)
    requires
        !line.contains('\n'),
        after.len() == 0 || after[0] == '\n',
    ensures
        ({
            let error = before + "    error: "@ + line + after;
            let p = before.len() as int;
            let end = p + 11 + line.len();
            &&& analyzer::runs_to_line_end(error, "    error: "@, p, end)
            &&& error.subrange(p + 4, end) == "error: "@ + line
        }),
{
    let start = "    error: "@;
    let error = before + start + line + after;
    let p = before.len() as int;
    reveal_strlit("    error: ");
    reveal_strlit("error: ");
    let end = p + 11 + line.len();
    assert(error.subrange(p, p + start.len()) =~= start);
    assert forall|k: int| p + start.len() <= k < end implies #[trigger] error[k] != '\n' by {
        assert(error[k] == line[k - p - start.len()]);
        assert(line.contains(error[k]));
    }
    if after.len() > 0 {
        assert(error[end] == after[0]);
    }
    assert(error.subrange(p + 4, end) =~= "error: "@ + line);
}

/// The reason runs from the first `error: ` behind four spaces to the end of its line.
proof fn lemma_other_reason(error: Seq<char>, reason: Option<Seq<char>>, p: int, end: int)
    requires
        analyzer::explains(error, reason),
        nothing_special(error),
        analyzer::runs_to_line_end(error, "    error: "@, p, end),
        analyzer::not_before(error, "    error: "@, p),
    ensures
        reason == Some(error.subrange(p + 4, end)),
{
    let start = "    error: "@;
    assert(text::stands(error, start, p));
    let (q, e) = choose|q: int, e: int| #[trigger]
        analyzer::runs_to_line_end(error, start, q, e) && analyzer::not_before(error, start, q)
            && reason == Some(error.subrange(q + 4, e));
    lemma_first_place(error, start, p, q);
    assert(e == end);
}

/// If nothing special is in an error and no line has `error: ` behind four spaces, no reason is
/// recognized.
pub proof fn law_no_reason(error: Seq<char>, reason: Option<Seq<char>>)
    requires
        analyzer::explains(error, reason),
        nothing_special(error),
        forall|p: int| !#[trigger] text::stands(error, "    error: "@, p),
    ensures
        reason is None,
{
}

/// An enclosed text is found where its opening first stands.
proof fn lemma_enclosed(
    before: Seq<char>,
    opening: Seq<char>,
    name: Seq<char>,
    quote: char,
    closing: Seq<char>,
    after: Seq<char>,
    p: int,
    e: int,
)
    requires
        !name.contains(quote),
        closing.len() > 0,
        closing[0] == quote,
        analyzer::not_before(
            before + opening + name + closing + after,
            opening,
            before.len() as int,
        ),
        analyzer::encloses_first(
            before + opening + name + closing + after,
            opening,
            quote,
            closing,
            p,
            e,
        ),
    ensures
        p == before.len(),
        (before + opening + name + closing + after).subrange(p, e + closing.len()) == opening + name
            + closing,
{
    let s = before + opening + name + closing + after;
    let (m, n) = (before.len() as int, before.len() as int + opening.len() + name.len());
    lemma_encloses(before, opening, name, quote, closing, after);
    assert(p <= m);
    assert(p == m);
    let from = m + opening.len();
    if e < n {
        assert(s[e] == name[e - from]);
        assert(s.subrange(e, e + closing.len())[0] == s[e]);
        assert(name.contains(s[e]));
    }
    if e > n {
        assert(s[n] == closing[0]);
        assert(s[n] != quote);
    }
    assert(s.subrange(m, n + closing.len()) =~= opening + name + closing);
}

/// A text put together of an opening, a name and a closing is enclosed.
proof fn lemma_encloses(
    before: Seq<char>,
    opening: Seq<char>,
    name: Seq<char>,
    quote: char,
    closing: Seq<char>,
    after: Seq<char>,
)
    requires
        !name.contains(quote),
    ensures
        analyzer::encloses(
            before + opening + name + closing + after,
            opening,
            quote,
            closing,
            before.len() as int,
            before.len() as int + opening.len() + name.len(),
        ),
{
    let s = before + opening + name + closing + after;
    let (m, n) = (before.len() as int, before.len() as int + opening.len() + name.len());
    assert(s.subrange(m, m + opening.len()) =~= opening);
    assert(s.subrange(n, n + closing.len()) =~= closing);
    assert forall|k: int| m + opening.len() <= k < n implies #[trigger] s[k] != quote by {
        assert(s[k] == name[k - m - opening.len()]);
        assert(name.contains(s[k]));
    }
}

/// A missing attribute is the reason, whatever else the error says, and whatever its name.
pub proof fn law_missing_attribute_is_reason(
    error: Seq<char>,
    reason: Option<Seq<char>>,
    before: Seq<char>,
    name: Seq<char>,
    after: Seq<char>,
)
    requires
        analyzer::explains(error, reason),
        error == before + "error: attribute '"@ + name + "' missing"@ + after,
        analyzer::not_before(error, "error: attribute '"@, before.len() as int),
        !name.contains('\''),
    ensures
        reason == Some("error: attribute '"@ + name + "' missing"@),
{
    let (opening, closing) = ("error: attribute '"@, "' missing"@);
    reveal_strlit("' missing");
    lemma_encloses(before, opening, name, '\'', closing, after);
    assert(analyzer::tells_missing(
        error,
        before.len() as int,
        before.len() as int + opening.len() + name.len(),
    ));
    let (p, e) = choose|p: int, e: int| #[trigger]
        analyzer::encloses_first(error, opening, '\'', closing, p, e) && reason == Some(
            error.subrange(p, e + closing.len()),
        );
    lemma_enclosed(before, opening, name, '\'', closing, after, p, e);
}

/// A missing argument is the reason unless an attribute is missing or a package is refused.
pub proof fn law_missing_argument_is_reason(
    error: Seq<char>,
    reason: Option<Seq<char>>,
    before: Seq<char>,
    name: Seq<char>,
    after: Seq<char>,
)
    requires
        analyzer::explains(error, reason),
        error == before + "callPackageWith: Function called without required argument \""@ + name
            + "\""@ + after,
        analyzer::not_before(
            error,
            "callPackageWith: Function called without required argument \""@,
            before.len() as int,
        ),
        forall|p: int, e: int| !#[trigger] analyzer::tells_missing(error, p, e),
        forall|p: int, i: int, j: int, e: int| !#[trigger] analyzer::tells_broken(error, p, i, j, e),
        forall|p: int, i: int, j: int, k: int, e: int|
            !#[trigger] analyzer::tells_unfree(error, p, i, j, k, e),
        !name.contains('"'),
    ensures
        reason == Some(
            "callPackageWith: Function called without required argument \""@ + name + "\""@,
        ),
{
    let opening = "callPackageWith: Function called without required argument \""@;
    let closing = "\""@;
    reveal_strlit("\"");
    lemma_encloses(before, opening, name, '"', closing, after);
    assert(analyzer::tells_missing_arg(
        error,
        before.len() as int,
        before.len() as int + opening.len() + name.len(),
    ));
    let (p, e) = choose|p: int, e: int| #[trigger]
        analyzer::encloses_first(error, opening, '"', closing, p, e) && reason == Some(
            error.subrange(p, e + 1),
        );
    lemma_enclosed(before, opening, name, '"', closing, after, p, e);
}

// ---- packages ----

/// An error on a package: its name, where it is in the store, and what is said of it.
pub open spec fn package_error(name: Seq<char>, place: Seq<char>, rest: Seq<char>) -> Seq<char> {
    "error: Package ‘"@ + name + "’ in /nix/store"@ + place + rest
}

/// Where the parts of an error on a package begin and end.
proof fn lemma_package_parts(
    before: Seq<char>,
    name: Seq<char>,
    place: Seq<char>,
    rest: Seq<char>,
    after: Seq<char>,
)
    requires
        !name.contains('’'),
        !place.contains(' '),
        rest.len() > 0,
        rest[0] == ' ',
    ensures
        ({
            let s = before + package_error(name, place, rest) + after;
            let p = before.len() as int;
            let i = p + 16 + name.len();
            let j = i + 15 + place.len();
            &&& analyzer::names_package(s, p, i, j)
            &&& text::stands(s, rest, j)
            &&& forall|i2: int, j2: int| #[trigger]
                analyzer::names_package(s, p, i2, j2) && j2 < s.len() && s[j2] == ' ' ==> i2 == i
                    && j2 == j
            &&& s.subrange(i + 1, j) == " in /nix/store"@ + place
            &&& s.subrange(p, j + rest.len()) == "error: Package ‘"@ + name + "’"@ + (
            " in /nix/store"@ + place) + rest
        }),
{
    reveal_strlit("error: Package ‘");
    reveal_strlit("’ in /nix/store");
    reveal_strlit(" in /nix/store");
    reveal_strlit("’");
    let s = before + package_error(name, place, rest) + after;
    let p = before.len() as int;
    let i = p + 16 + name.len();
    let j = i + 15 + place.len();
    assert(s.subrange(p, p + 16) =~= "error: Package ‘"@);
    assert(s.subrange(i, i + 15) =~= "’ in /nix/store"@);
    assert(s.subrange(j, j + rest.len()) =~= rest);
    assert forall|k: int| p + 16 <= k < i implies #[trigger] s[k] != '’' by {
        assert(s[k] == name[k - p - 16]);
        assert(name.contains(s[k]));
    }
    assert forall|k: int| i + 15 <= k < j implies #[trigger] s[k] != ' ' by {
        assert(s[k] == place[k - i - 15]);
        assert(place.contains(s[k]));
    }
    assert(s[i] == '’');
    assert(s[j] == ' ');
    assert forall|i2: int, j2: int| #[trigger]
        analyzer::names_package(s, p, i2, j2) && j2 < s.len() && s[j2] == ' ' implies i2 == i && j2
        == j by {
        assert(s.subrange(i2, i2 + 15)[0] == s[i2]);
        assert(s[i2] == '’');
        assert(i2 == i);
    }
    assert(s.subrange(i + 1, j) =~= " in /nix/store"@ + place);
    assert(s.subrange(p, j + rest.len()) =~= "error: Package ‘"@ + name + "’"@ + (
    " in /nix/store"@ + place) + rest);
}

/// What is left of an error on a package without where it is in the store.
proof fn lemma_package_shortened(name: Seq<char>, place: Seq<char>, rest: Seq<char>)
    requires
        !name.contains('/'),
        !rest.contains('/'),
    ensures
        text::with_removed(
            "error: Package ‘"@ + name + "’"@ + (" in /nix/store"@ + place) + rest,
            " in /nix/store"@ + place,
        ) == "error: Package ‘"@ + name + "’"@ + rest,
{
    reveal_strlit("error: Package ‘");
    reveal_strlit(" in /nix/store");
    reveal_strlit("’");
    let head = "error: Package ‘"@ + name + "’"@;
    let cut = " in /nix/store"@ + place;
    assert(cut[4] == '/');
    assert forall|k: int| 0 <= k < head.len() implies #[trigger] head[k] != '/' by {
        if 16 <= k < 16 + name.len() {
            assert(head[k] == name[k - 16]);
            assert(name.contains(head[k]));
        }
    }
    assert forall|k: int| 0 <= k < rest.len() implies #[trigger] rest[k] != '/' by {
        assert(rest.contains(rest[k]));
    }
    laws::texts::law_removed_from_between(head, cut, rest, '/', 4);
}

/// A package marked as broken or insecure is the reason unless an attribute is missing. It is left
/// out where the package is in the store.
pub proof fn law_broken_package_is_reason(
    error: Seq<char>,
    reason: Option<Seq<char>>,
    before: Seq<char>,
    name: Seq<char>,
    place: Seq<char>,
    rest: Seq<char>,
    after: Seq<char>,
)
    requires
        analyzer::explains(error, reason),
        error == before + package_error(name, place, rest) + after,
        rest == " is marked as broken, refusing to evaluate"@ || rest
            == " is marked as insecure, refusing to evaluate"@,
        analyzer::not_before(error, "error: Package ‘"@, before.len() as int),
        forall|p: int, e: int| !#[trigger] analyzer::tells_missing(error, p, e),
        !name.contains('’'),
        !name.contains('/'),
        !place.contains(' '),
    ensures
        reason == Some("error: Package ‘"@ + name + "’"@ + rest),
{
    assert(rest.len() > 0 && rest[0] == ' ' && !rest.contains('/')) by {
        reveal_strlit(" is marked as broken, refusing to evaluate");
        reveal_strlit(" is marked as insecure, refusing to evaluate");
    }
    let n = before.len() as int;
    let i = n + 16 + name.len();
    let j = i + 15 + place.len();
    lemma_package_parts(before, name, place, rest, after);
    lemma_broken_found(error, reason, n, i, j, rest);
    lemma_package_shortened(name, place, rest);
}

/// The first package that is marked is the reason.
proof fn lemma_broken_found(
    s: Seq<char>,
    reason: Option<Seq<char>>,
    n: int,
    i: int,
    j: int,
    rest: Seq<char>,
)
    requires
        analyzer::explains(s, reason),
        forall|p: int, e: int| !#[trigger] analyzer::tells_missing(s, p, e),
        analyzer::not_before(s, "error: Package ‘"@, n),
        analyzer::names_package(s, n, i, j),
        forall|i2: int, j2: int| #[trigger]
            analyzer::names_package(s, n, i2, j2) && j2 < s.len() && s[j2] == ' ' ==> i2 == i && j2
                == j,
        rest == " is marked as broken, refusing to evaluate"@ || rest
            == " is marked as insecure, refusing to evaluate"@,
        text::stands(s, rest, j),
    ensures
        reason == Some(text::with_removed(s.subrange(n, j + rest.len()), s.subrange(i + 1, j))),
{
    let (a, b) = (
        " is marked as broken, refusing to evaluate"@,
        " is marked as insecure, refusing to evaluate"@,
    );
    let end = j + rest.len();
    assert(analyzer::tells_broken(s, n, i, j, end));
    let (p, i2, j2, e) = choose|p: int, i: int, j: int, e: int| #[trigger]
        analyzer::tells_broken_first(s, p, i, j, e) && reason == Some(
            text::with_removed(s.subrange(p, e), s.subrange(i + 1, j)),
        );
    assert(analyzer::tells_broken(s, p, i2, j2, e));
    assert(analyzer::names_package(s, p, i2, j2));
    assert(text::stands(s, "error: Package ‘"@, p));
    assert(p == n);
    assert(a.len() >= 15 && b.len() >= 15 && a[0] == ' ' && b[0] == ' ' && a[14] == 'b' && b[14]
        == 'i') by {
        reveal_strlit(" is marked as broken, refusing to evaluate");
        reveal_strlit(" is marked as insecure, refusing to evaluate");
    }
    if text::stands(s, a, j2) {
        assert(s.subrange(j2, j2 + a.len())[0] == s[j2]);
        assert(s.subrange(j2, j2 + a.len())[14] == s[j2 + 14]);
    }
    if text::stands(s, b, j2) {
        assert(s.subrange(j2, j2 + b.len())[0] == s[j2]);
        assert(s.subrange(j2, j2 + b.len())[14] == s[j2 + 14]);
    }
    assert(i2 == i && j2 == j);
    assert(s.subrange(j, j + rest.len())[14] == s[j + 14]);
    assert(e == end);
}

/// A package with an unfree license is the reason unless an attribute is missing or a package is
/// marked as broken or insecure. It is left out where the package is in the store.
pub proof fn law_unfree_package_is_reason(
    error: Seq<char>,
    reason: Option<Seq<char>>,
    before: Seq<char>,
    name: Seq<char>,
    place: Seq<char>,
    license: Seq<char>,
    after: Seq<char>,
)
    requires
        analyzer::explains(error, reason),
        error == before + package_error(
            name,
            place,
            " has an unfree license (‘"@ + license + "’), refusing to evaluate"@,
        ) + after,
        analyzer::not_before(error, "error: Package ‘"@, before.len() as int),
        forall|p: int, e: int| !#[trigger] analyzer::tells_missing(error, p, e),
        forall|p: int, i: int, j: int, e: int| !#[trigger] analyzer::tells_broken(error, p, i, j, e),
        !name.contains('’'),
        !name.contains('/'),
        !place.contains(' '),
        !license.contains('’'),
        !license.contains('/'),
    ensures
        reason == Some(
            "error: Package ‘"@ + name + "’"@ + (" has an unfree license (‘"@ + license
                + "’), refusing to evaluate"@),
        ),
{
    let (lead, tail) = (" has an unfree license (‘"@, "’), refusing to evaluate"@);
    let rest = lead + license + tail;
    assert(lead.len() > 0 && lead[0] == ' ' && !lead.contains('/') && !tail.contains('/')) by {
        reveal_strlit(" has an unfree license (‘");
        reveal_strlit("’), refusing to evaluate");
    }
    assert(rest[0] == ' ');
    let n = before.len() as int;
    let i = n + 16 + name.len();
    let j = i + 15 + place.len();
    lemma_package_parts(before, name, place, rest, after);
    lemma_unfree_found(error, reason, n, i, j, license);
    assert(!rest.contains('/')) by {
        if rest.contains('/') {
            let m = choose|m: int| 0 <= m < rest.len() && rest[m] == '/';
            if m < lead.len() {
                assert(lead.contains(lead[m]));
            } else if m < lead.len() + license.len() {
                assert(license.contains(license[m - lead.len()]));
            } else {
                assert(tail.contains(tail[m - lead.len() - license.len()]));
            }
        }
    }
    lemma_package_shortened(name, place, rest);
}

/// The first package with an unfree license is the reason.
proof fn lemma_unfree_found(
    s: Seq<char>,
    reason: Option<Seq<char>>,
    n: int,
    i: int,
    j: int,
    license: Seq<char>,
)
    requires
        analyzer::explains(s, reason),
        forall|p: int, e: int| !#[trigger] analyzer::tells_missing(s, p, e),
        forall|p: int, i: int, j: int, e: int| !#[trigger] analyzer::tells_broken(s, p, i, j, e),
        analyzer::not_before(s, "error: Package ‘"@, n),
        analyzer::names_package(s, n, i, j),
        forall|i2: int, j2: int| #[trigger]
            analyzer::names_package(s, n, i2, j2) && j2 < s.len() && s[j2] == ' ' ==> i2 == i && j2
                == j,
        text::stands(
            s,
            " has an unfree license (‘"@ + license + "’), refusing to evaluate"@,
            j,
        ),
        !license.contains('’'),
    ensures
        ({
            let rest = " has an unfree license (‘"@ + license + "’), refusing to evaluate"@;
            reason == Some(
                text::with_removed(s.subrange(n, j + rest.len()), s.subrange(i + 1, j)),
            )
        }),
{
    let (lead, tail) = (" has an unfree license (‘"@, "’), refusing to evaluate"@);
    let rest = lead + license + tail;
    let from = j + lead.len();
    let k = from + license.len();
    let part = s.subrange(j, j + rest.len());
    assert(part == rest);
    assert(lead.len() > 0 && tail.len() > 0 && lead[0] == ' ' && tail[0] == '’') by {
        reveal_strlit(" has an unfree license (‘");
        reveal_strlit("’), refusing to evaluate");
    }
    assert(s.subrange(j, from) =~= part.take(lead.len() as int));
    assert(rest.take(lead.len() as int) =~= lead);
    assert(s.subrange(k, k + tail.len()) =~= part.skip(lead.len() as int + license.len()));
    assert(rest.skip(lead.len() as int + license.len()) =~= tail);
    assert forall|m: int| from <= m < k implies #[trigger] s[m] != '’' by {
        assert(s[m] == part[m - j]);
        assert(rest[m - j] == license[m - from]);
        assert(license.contains(license[m - from]));
    }
    let end = k + tail.len();
    assert(analyzer::tells_unfree(s, n, i, j, k, end));
    let (p, i2, j2, k2, e) = choose|p: int, i: int, j: int, k: int, e: int| #[trigger]
        analyzer::tells_unfree_first(s, p, i, j, k, e) && reason == Some(
            text::with_removed(s.subrange(p, e), s.subrange(i + 1, j)),
        );
    assert(analyzer::tells_unfree(s, p, i2, j2, k2, e));
    assert(analyzer::names_package(s, p, i2, j2));
    assert(text::stands(s, "error: Package ‘"@, p));
    assert(p == n);
    assert(s.subrange(j2, j2 + lead.len())[0] == s[j2]);
    assert(i2 == i && j2 == j);
    assert(s.subrange(k2, k2 + tail.len())[0] == s[k2]);
    assert(s.subrange(k, k + tail.len())[0] == s[k]);
    assert(k2 == k);
}

/// What is found of a missing attribute decides, whatever else is found; then a broken package, an
/// unfree one, a missing argument, and last any other error. Where a package is in the store is left
/// out of its reason.
pub proof fn law_first_find_decides(
    broken: Option<LocatedModel>,
    unfree: Option<LocatedModel>,
    missing_arg: Option<Seq<char>>,
    other: Option<LocatedModel>,
    reason: Seq<char>,
    located: LocatedModel,
)
    ensures
        analyzer::reason_among(Some(reason), broken, unfree, missing_arg, other) == Some(reason),
        analyzer::reason_among(None, Some(located), unfree, missing_arg, other) == Some(
            text::with_removed(located.whole, located.group),
        ),
        analyzer::reason_among(None, None, Some(located), missing_arg, other) == Some(
            text::with_removed(located.whole, located.group),
        ),
        analyzer::reason_among(None, None, None, Some(reason), other) == Some(reason),
        analyzer::reason_among(None, None, None, None, Some(located)) == Some(located.group),
        analyzer::reason_among(None, None, None, None, None) is None,
{
}

} // verus!
