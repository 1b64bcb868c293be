//! Why an attribute could not be evaluated.

use crate::text;
use crate::text::remove_all;
use vstd::prelude::*;
use vstd::string::*;

verus! {

/// The error of the `regex` crate for a pattern that it refuses.
#[verifier::external_type_specification]
#[verifier::external_body]
pub struct ExRegexError(regex::Error);

/// A compiled pattern of the `regex` crate.
#[verifier::external_type_specification]
#[verifier::external_body]
pub struct ExRegex(regex::Regex);

/// What `Regex::new` makes of a pattern, or the error with which it refuses the pattern.
pub uninterp spec fn compiled_regex(pattern: Seq<char>) -> Result<regex::Regex, regex::Error>;

/// The number that `Regex::captures_len` gives.
pub uninterp spec fn regex_groups(regex: regex::Regex) -> usize;

/// The number that `Regex::static_captures_len` gives.
pub uninterp spec fn regex_static_groups(regex: regex::Regex) -> Option<usize>;

/// The text that `Regex::find` finds.
pub uninterp spec fn regex_found(regex: regex::Regex, haystack: Seq<char>) -> Option<Seq<char>>;

/// The texts of the groups that `Regex::captures` finds, that of the whole match first; nothing
/// for a group that takes no part in the match.
pub uninterp spec fn regex_captured(regex: regex::Regex, haystack: Seq<char>) -> Option<
    Seq<Option<Seq<char>>>,
>;

/// An optional text, as a character sequence.
pub open spec fn optional(s: Option<String>) -> Option<Seq<char>> {
    match s {
        Some(s) => Some(s@),
        None => None,
    }
}

// ---- what the patterns look for, in the text itself ----

/// A character that stands for itself in a pattern and among the characters of a class.
pub open spec fn is_plain(c: char) -> bool {
    97 <= c as int <= 122 || 65 <= c as int <= 90 || c == ' ' || c == ':' || c == '\'' || c == '"'
}

/// A text of such characters.
pub open spec fn all_plain(s: Seq<char>) -> bool {
    forall|i: int| 0 <= i < s.len() ==> is_plain(#[trigger] s[i])
}

/// The pattern for `opening`, any characters but `quote`, and `closing`.
pub open spec fn enclosed_pattern(opening: Seq<char>, quote: char, closing: Seq<char>) -> Seq<char> {
    opening + "[^"@ + seq![quote] + "]*"@ + closing
}

/// `opening` stands at `p`, `closing` stands at `e`, and no `quote` is between them.
pub open spec fn encloses(
    s: Seq<char>,
    opening: Seq<char>,
    quote: char,
    closing: Seq<char>,
    p: int,
    e: int,
) -> bool {
    &&& text::stands(s, opening, p)
    &&& p + opening.len() <= e
    &&& text::lacks(s, quote, p + opening.len(), e)
    &&& text::stands(s, closing, e)
}

/// Nothing of that kind begins before `p`.
pub open spec fn encloses_first(
    s: Seq<char>,
    opening: Seq<char>,
    quote: char,
    closing: Seq<char>,
    p: int,
    e: int,
) -> bool {
    &&& encloses(s, opening, quote, closing, p, e)
    &&& forall|p2: int, e2: int| p2 < p ==> !#[trigger] encloses(s, opening, quote, closing, p2, e2)
}

/// The pattern for `lead` and, as a group, `head` with the rest of the line.
pub open spec fn rest_pattern(lead: Seq<char>, head: Seq<char>) -> Seq<char> {
    lead + "("@ + head + ".*)"@
}

/// `start` stands at `p`, and the line that it is on ends at `e`.
pub open spec fn runs_to_line_end(s: Seq<char>, start: Seq<char>, p: int, e: int) -> bool {
    &&& text::stands(s, start, p)
    &&& p + start.len() <= e <= s.len()
    &&& text::lacks(s, '\n', p + start.len(), e)
    &&& e == s.len() || s[e] == '\n'
}

/// `start` does not stand before `p`.
pub open spec fn not_before(s: Seq<char>, start: Seq<char>, p: int) -> bool {
    forall|p2: int| p2 < p ==> !#[trigger] text::stands(s, start, p2)
}

/// The pattern for what an error says of a package; where the package is in the store is its first
/// group.
pub open spec fn package_pattern(verdict: Seq<char>) -> Seq<char> {
    "error: Package ‘[^’]*’( in /nix/store[^ ]*)"@ + verdict + ", refusing to evaluate"@
}

/// From `p` on, an error names a package; the name ends at `i`, and where the package is in the
/// store ends at `j`.
pub open spec fn names_package(s: Seq<char>, p: int, i: int, j: int) -> bool {
    &&& text::stands(s, "error: Package ‘"@, p)
    &&& p + "error: Package ‘"@.len() <= i
    &&& text::lacks(s, '’', p + "error: Package ‘"@.len(), i)
    &&& text::stands(s, "’ in /nix/store"@, i)
    &&& i + "’ in /nix/store"@.len() <= j
    &&& text::lacks(s, ' ', i + "’ in /nix/store"@.len(), j)
}

/// From `p` to `e`, an error says that a package is marked as broken or insecure.
pub open spec fn tells_broken(s: Seq<char>, p: int, i: int, j: int, e: int) -> bool {
    &&& names_package(s, p, i, j)
    &&& {
        ||| text::stands(s, " is marked as broken, refusing to evaluate"@, j) && e == j
            + " is marked as broken, refusing to evaluate"@.len()
        ||| text::stands(s, " is marked as insecure, refusing to evaluate"@, j) && e == j
            + " is marked as insecure, refusing to evaluate"@.len()
    }
}

/// From `p` to `e`, an error says that a package has an unfree license, whose name ends at `k`.
pub open spec fn tells_unfree(s: Seq<char>, p: int, i: int, j: int, k: int, e: int) -> bool {
    &&& names_package(s, p, i, j)
    &&& text::stands(s, " has an unfree license (‘"@, j)
    &&& j + " has an unfree license (‘"@.len() <= k
    &&& text::lacks(s, '’', j + " has an unfree license (‘"@.len(), k)
    &&& text::stands(s, "’), refusing to evaluate"@, k)
    &&& e == k + "’), refusing to evaluate"@.len()
}

/// The first such text in an error.
pub open spec fn tells_broken_first(s: Seq<char>, p: int, i: int, j: int, e: int) -> bool {
    &&& tells_broken(s, p, i, j, e)
    &&& forall|p2: int, i2: int, j2: int, e2: int|
        p2 < p ==> !#[trigger] tells_broken(s, p2, i2, j2, e2)
}

/// The first such text in an error.
pub open spec fn tells_unfree_first(s: Seq<char>, p: int, i: int, j: int, k: int, e: int) -> bool {
    &&& tells_unfree(s, p, i, j, k, e)
    &&& forall|p2: int, i2: int, j2: int, k2: int, e2: int|
        p2 < p ==> !#[trigger] tells_unfree(s, p2, i2, j2, k2, e2)
}

/// A match from `p` to `e` with a first group from `i` to `j`.
pub open spec fn takes(
    groups: Seq<Option<Seq<char>>>,
    s: Seq<char>,
    p: int,
    i: int,
    j: int,
    e: int,
) -> bool {
    &&& groups.len() >= 2
    &&& groups[0] == Some(s.subrange(p, e))
    &&& groups[1] == Some(s.subrange(i, j))
}

/// The texts of groups, as character sequences.
pub open spec fn optional_groups(groups: Option<Vec<Option<String>>>) -> Option<
    Seq<Option<Seq<char>>>,
> {
    match groups {
        Some(groups) => Some(groups@.map_values(|group: Option<String>| optional(group))),
        None => None,
    }
}

/// For a plain text, any number of characters but one, and a plain text that begins with that
/// one, what is found is the first place at which these follow each other.
pub open spec fn finds_enclosed(regex: regex::Regex, s: Seq<char>, found: Option<Seq<char>>) -> bool {
    forall|opening: Seq<char>, quote: char, closing: Seq<char>|
        compiled_regex(#[trigger] enclosed_pattern(opening, quote, closing)) == Ok::<
            regex::Regex,
            regex::Error,
        >(regex) && all_plain(opening) && is_plain(quote) && all_plain(closing) && closing.len() > 0
            && closing[0] == quote ==> match found {
            Some(found) => exists|p: int, e: int| #[trigger]
                encloses_first(s, opening, quote, closing, p, e) && found == s.subrange(
                    p,
                    e + closing.len(),
                ),
            None => forall|p: int, e: int| !#[trigger] encloses(s, opening, quote, closing, p, e),
        }
}

/// For a plain text and, as a group, a plain text with any characters but a line feed, the match
/// begins where these texts first stand and runs to the end of the line.
pub open spec fn takes_rest_of_line(
    regex: regex::Regex,
    s: Seq<char>,
    groups: Option<Seq<Option<Seq<char>>>>,
) -> bool {
    forall|lead: Seq<char>, head: Seq<char>|
        compiled_regex(#[trigger] rest_pattern(lead, head)) == Ok::<regex::Regex, regex::Error>(
            regex,
        ) && all_plain(lead) && all_plain(head) ==> match groups {
            Some(groups) => exists|p: int, e: int| #[trigger]
                runs_to_line_end(s, lead + head, p, e) && not_before(s, lead + head, p) && takes(
                    groups,
                    s,
                    p,
                    p + lead.len(),
                    e,
                    e,
                ),
            None => forall|p: int| !#[trigger] text::stands(s, lead + head, p),
        }
}

/// For the two patterns on packages, the match is the first text of its kind, and the first group
/// is where the package is in the store.
pub open spec fn takes_package(
    regex: regex::Regex,
    s: Seq<char>,
    groups: Option<Seq<Option<Seq<char>>>>,
) -> bool {
    &&& compiled_regex(package_pattern(" is marked as (broken|insecure)"@)) == Ok::<
        regex::Regex,
        regex::Error,
    >(regex) ==> match groups {
        Some(groups) => exists|p: int, i: int, j: int, e: int| #[trigger]
            tells_broken_first(s, p, i, j, e) && takes(groups, s, p, i + 1, j, e),
        None => forall|p: int, i: int, j: int, e: int| !#[trigger] tells_broken(s, p, i, j, e),
    }
    &&& compiled_regex(package_pattern(" has an unfree license \\(‘[^’]*’\\)"@)) == Ok::<
        regex::Regex,
        regex::Error,
    >(regex) ==> match groups {
        Some(groups) => exists|p: int, i: int, j: int, k: int, e: int| #[trigger]
            tells_unfree_first(s, p, i, j, k, e) && takes(groups, s, p, i + 1, j, e),
        None => forall|p: int, i: int, j: int, k: int, e: int|
            !#[trigger] tells_unfree(s, p, i, j, k, e),
    }
}

/// Calls `Regex::new`. The claim is that the outcome depends on the pattern alone, the error
/// included: what is compiled from one pattern twice behaves the same.
#[verifier::external_body]
fn compile(pattern: &str) -> (r: Result<regex::Regex, regex::Error>)
    ensures
        r == compiled_regex(pattern@),
{
    regex::Regex::new(pattern)
}

/// Calls `Regex::captures_len`. The claim is that the number depends on the compiled pattern
/// alone and counts at least the whole match.
#[verifier::external_body]
fn count_groups(regex: &regex::Regex) -> (n: usize)
    ensures
        n == regex_groups(*regex),
        n >= 1,
{
    regex.captures_len()
}

/// Calls `Regex::static_captures_len`. The claim is that the number depends on the compiled
/// pattern alone.
#[verifier::external_body]
fn count_static_groups(regex: &regex::Regex) -> (n: Option<usize>)
    ensures
        n == regex_static_groups(*regex),
{
    regex.static_captures_len()
}

/// Calls `Regex::find`. The claim is that the text of the match depends on the compiled pattern
/// and the searched text alone. For a plain text, any number of characters but one, and a plain
/// text that begins with that one, it is the first place at which these follow each other.
#[verifier::external_body]
fn find(regex: &regex::Regex, haystack: &str) -> (found: Option<String>)
    ensures
        optional(found) == regex_found(*regex, haystack@),
        finds_enclosed(*regex, haystack@, optional(found)),
{
    regex.find(haystack).map(|m| m.as_str().to_string())
}

/// Calls `Regex::captures`. The claim is that the texts of the groups depend on the compiled
/// pattern and the searched text alone, that there are as many as the pattern has groups, and
/// that the whole match is always among them. Every group takes part in every match if the number
/// of groups in every possible match is the number of all groups. For a plain text and, as a
/// group, a plain text with any characters but a line feed, the match begins where these texts
/// first stand and runs to the end of the line. For the two patterns on packages, it is the first
/// text of their kind, and the first group is where the package is in the store.
#[verifier::external_body]
fn capture(regex: &regex::Regex, haystack: &str) -> (groups: Option<Vec<Option<String>>>)
    ensures
        match groups {
            Some(groups) => {
                &&& regex_captured(*regex, haystack@) == Some(
                    groups@.map_values(|group: Option<String>| optional(group)),
                )
                &&& groups@.len() == regex_groups(*regex)
                &&& groups@.len() >= 1 && groups@[0] is Some
                &&& regex_static_groups(*regex) == Some(regex_groups(*regex)) ==> forall|i: int|
                    0 <= i < groups@.len() ==> (#[trigger] groups@[i]) is Some
            },
            None => regex_captured(*regex, haystack@) is None,
        },
        takes_rest_of_line(*regex, haystack@, optional_groups(groups)),
        takes_package(*regex, haystack@, optional_groups(groups)),
{
    regex.captures(haystack).map(
        |groups| groups.iter().map(|group| group.map(|m| m.as_str().to_string())).collect())
}

/// A match and the text of its first group.
pub struct Located {
    pub whole: String,
    pub group: String,
}

/// The mathematical content of a [`Located`].
pub struct LocatedModel {
    pub whole: Seq<char>,
    pub group: Seq<char>,
}

impl View for Located {
    type V = LocatedModel;

    open spec fn view(&self) -> LocatedModel {
        LocatedModel { whole: self.whole@, group: self.group@ }
    }
}

/// An optional match, as its content.
pub open spec fn optional_located(located: Option<Located>) -> Option<LocatedModel> {
    match located {
        Some(located) => Some(located@),
        None => None,
    }
}

/// The reason given for an error, from what is found in it: a missing attribute, a package
/// marked as broken or insecure, one with an unfree license, a missing argument, or else any
/// line that starts with an error. The store path of a package is left out.
pub open spec fn reason_among(
    missing: Option<Seq<char>>,
    broken: Option<LocatedModel>,
    unfree: Option<LocatedModel>,
    missing_arg: Option<Seq<char>>,
    other: Option<LocatedModel>,
) -> Option<Seq<char>> {
    if missing is Some {
        missing
    } else if let Some(located) = broken {
        Some(text::with_removed(located.whole, located.group))
    } else if let Some(located) = unfree {
        Some(text::with_removed(located.whole, located.group))
    } else if missing_arg is Some {
        missing_arg
    } else if let Some(located) = other {
        Some(located.group)
    } else {
        None
    }
}

/// Picks the reason of an error from what was found in it.
pub fn choose_reason(
    missing: Option<String>,
    broken: Option<Located>,
    unfree: Option<Located>,
    missing_arg: Option<String>,
    other: Option<Located>,
) -> (reason: Option<String>)
    ensures
        optional(reason) == reason_among(
            optional(missing),
            optional_located(broken),
            optional_located(unfree),
            optional(missing_arg),
            optional_located(other),
        ),
{
    if missing.is_some() {
        missing
    } else if let Some(located) = broken {
        Some(remove_all(&located.whole, &located.group))
    } else if let Some(located) = unfree {
        Some(remove_all(&located.whole, &located.group))
    } else if missing_arg.is_some() {
        missing_arg
    } else if let Some(located) = other {
        Some(located.group)
    } else {
        None
    }
}

/// An attribute that does not exist.
pub open spec fn missing_pattern() -> Seq<char> {
    "error: attribute '[^']*' missing"@
}

/// A package marked as broken or insecure; the first group is where it is in the store.
pub open spec fn broken_pattern() -> Seq<char> {
    "error: Package ‘[^’]*’( in /nix/store[^ ]*) is marked as (broken|insecure), refusing to evaluate"@
}

/// A package with an unfree license; the first group is where it is in the store.
pub open spec fn unfree_pattern() -> Seq<char> {
    "error: Package ‘[^’]*’( in /nix/store[^ ]*) has an unfree license \\(‘[^’]*’\\), refusing to evaluate"@
}

/// A function called without one of its arguments.
pub open spec fn missing_arg_pattern() -> Seq<char> {
    "callPackageWith: Function called without required argument \"[^\"]*\""@
}

/// Any indented error; the first group is the line without the indentation.
pub open spec fn other_pattern() -> Seq<char> {
    "    (error: .*)"@
}

/// The patterns are well formed.
pub open spec fn patterns_compile() -> bool {
    &&& compiled_regex(missing_pattern()) is Ok
    &&& compiled_regex(broken_pattern()) is Ok
    &&& compiled_regex(unfree_pattern()) is Ok
    &&& compiled_regex(missing_arg_pattern()) is Ok
    &&& compiled_regex(other_pattern()) is Ok
}

/// The error of the first pattern that is refused.
pub open spec fn first_refusal() -> Option<regex::Error> {
    if let Err(error) = compiled_regex(missing_pattern()) {
        Some(error)
    } else if let Err(error) = compiled_regex(broken_pattern()) {
        Some(error)
    } else if let Err(error) = compiled_regex(unfree_pattern()) {
        Some(error)
    } else if let Err(error) = compiled_regex(missing_arg_pattern()) {
        Some(error)
    } else if let Err(error) = compiled_regex(other_pattern()) {
        Some(error)
    } else {
        None
    }
}

/// A compiled pattern has a group, and all its groups take part in every match.
pub open spec fn group_in_every_match(regex: regex::Regex) -> bool {
    &&& regex_groups(regex) >= 2
    &&& regex_static_groups(regex) == Some(regex_groups(regex))
}

/// The patterns of which a group is used have that group in every match.
pub open spec fn groups_in_every_match() -> bool {
    &&& group_in_every_match(compiled_regex(broken_pattern())->Ok_0)
    &&& group_in_every_match(compiled_regex(unfree_pattern())->Ok_0)
    &&& group_in_every_match(compiled_regex(other_pattern())->Ok_0)
}

/// The match of a compiled pattern and its first group.
pub open spec fn located_by(regex: regex::Regex, haystack: Seq<char>) -> Option<LocatedModel> {
    match regex_captured(regex, haystack) {
        Some(groups) => Some(LocatedModel { whole: groups[0]->0, group: groups[1]->0 }),
        None => None,
    }
}

/// The reason for an evaluation error.
pub open spec fn reason_of(error: Seq<char>) -> Option<Seq<char>> {
    reason_among(
        regex_found(compiled_regex(missing_pattern())->Ok_0, error),
        located_by(compiled_regex(broken_pattern())->Ok_0, error),
        located_by(compiled_regex(unfree_pattern())->Ok_0, error),
        regex_found(compiled_regex(missing_arg_pattern())->Ok_0, error),
        located_by(compiled_regex(other_pattern())->Ok_0, error),
    )
}

/// An attribute is said to be missing.
pub open spec fn tells_missing(s: Seq<char>, p: int, e: int) -> bool {
    encloses(s, "error: attribute '"@, '\'', "' missing"@, p, e)
}

/// A function is said to lack an argument.
pub open spec fn tells_missing_arg(s: Seq<char>, p: int, e: int) -> bool {
    encloses(
        s,
        "callPackageWith: Function called without required argument \""@,
        '"',
        "\""@,
        p,
        e,
    )
}

/// The text is the reason for an error, told from the error alone. A missing attribute comes
/// first, then a package marked as broken or insecure, one with an unfree license, a missing
/// argument, and any other error that stands behind four spaces. Of several of a kind, the first
/// counts. Of a package, it is left out where it is in the store.
pub open spec fn explains(error: Seq<char>, reason: Option<Seq<char>>) -> bool {
    if exists|p: int, e: int| tells_missing(error, p, e) {
        exists|p: int, e: int| #[trigger]
            encloses_first(error, "error: attribute '"@, '\'', "' missing"@, p, e) && reason == Some(
                error.subrange(p, e + "' missing"@.len()),
            )
    } else if exists|p: int, i: int, j: int, e: int| tells_broken(error, p, i, j, e) {
        exists|p: int, i: int, j: int, e: int| #[trigger]
            tells_broken_first(error, p, i, j, e) && reason == Some(
                text::with_removed(error.subrange(p, e), error.subrange(i + 1, j)),
            )
    } else if exists|p: int, i: int, j: int, k: int, e: int| tells_unfree(error, p, i, j, k, e) {
        exists|p: int, i: int, j: int, k: int, e: int| #[trigger]
            tells_unfree_first(error, p, i, j, k, e) && reason == Some(
                text::with_removed(error.subrange(p, e), error.subrange(i + 1, j)),
            )
    } else if exists|p: int, e: int| tells_missing_arg(error, p, e) {
        exists|p: int, e: int| #[trigger]
            encloses_first(
                error,
                "callPackageWith: Function called without required argument \""@,
                '"',
                "\""@,
                p,
                e,
            ) && reason == Some(error.subrange(p, e + 1))
    } else if exists|p: int| text::stands(error, "    error: "@, p) {
        exists|p: int, e: int| #[trigger]
            runs_to_line_end(error, "    error: "@, p, e) && not_before(error, "    error: "@, p)
                && reason == Some(error.subrange(p + 4, e))
    } else {
        reason is None
    }
}

/// The patterns are made of the texts that they look for.
proof fn lemma_patterns()
    ensures
        missing_pattern() == enclosed_pattern("error: attribute '"@, '\'', "' missing"@),
        all_plain("error: attribute '"@),
        all_plain("' missing"@),
        "' missing"@.len() > 0 && "' missing"@[0] == '\'',
        broken_pattern() == package_pattern(" is marked as (broken|insecure)"@),
        unfree_pattern() == package_pattern(" has an unfree license \\(‘[^’]*’\\)"@),
        missing_arg_pattern() == enclosed_pattern(
            "callPackageWith: Function called without required argument \""@,
            '"',
            "\""@,
        ),
        all_plain("callPackageWith: Function called without required argument \""@),
        all_plain("\""@),
        "\""@.len() == 1 && "\""@[0] == '"',
        other_pattern() == rest_pattern("    "@, "error: "@),
        all_plain("    "@),
        all_plain("error: "@),
        "    "@.len() == 4,
        "    "@ + "error: "@ == "    error: "@,
{
    reveal_strlit("error: attribute '");
    reveal_strlit("' missing");
    reveal_strlit("error: attribute '[^']*' missing");
    reveal_strlit("[^");
    reveal_strlit("]*");
    reveal_strlit("callPackageWith: Function called without required argument \"");
    reveal_strlit("callPackageWith: Function called without required argument \"[^\"]*\"");
    reveal_strlit("\"");
    reveal_strlit("    (error: .*)");
    reveal_strlit("    ");
    reveal_strlit("error: ");
    reveal_strlit("    error: ");
    reveal_strlit("(");
    reveal_strlit(".*)");
    reveal_strlit("error: Package ‘[^’]*’( in /nix/store[^ ]*)");
    reveal_strlit(" is marked as (broken|insecure)");
    reveal_strlit(" has an unfree license \\(‘[^’]*’\\)");
    reveal_strlit(", refusing to evaluate");
    reveal_strlit(
        "error: Package ‘[^’]*’( in /nix/store[^ ]*) is marked as (broken|insecure), refusing to evaluate",
    );
    reveal_strlit(
        "error: Package ‘[^’]*’( in /nix/store[^ ]*) has an unfree license \\(‘[^’]*’\\), refusing to evaluate",
    );
    assert(missing_pattern() =~= enclosed_pattern("error: attribute '"@, '\'', "' missing"@));
    assert(broken_pattern() =~= package_pattern(" is marked as (broken|insecure)"@));
    assert(unfree_pattern() =~= package_pattern(" has an unfree license \\(‘[^’]*’\\)"@));
    assert(missing_arg_pattern() =~= enclosed_pattern(
        "callPackageWith: Function called without required argument \""@,
        '"',
        "\""@,
    ));
    assert(other_pattern() =~= rest_pattern("    "@, "error: "@));
    assert("    "@ + "error: "@ =~= "    error: "@);
}

/// Patterns that cannot be used.
pub enum PatternError {
    /// A pattern is refused.
    Syntax(regex::Error),
    /// A pattern lacks its group, or has it in some matches only.
    Groups,
}

/// Finds the reason in the text of an evaluation error, with patterns that are compiled once.
pub struct EvalErrorAnalyzer {
    missing: regex::Regex,
    broken: regex::Regex,
    unfree: regex::Regex,
    missing_arg: regex::Regex,
    other: regex::Regex,
}

/// Whether all groups of a compiled pattern take part in every match.
fn has_group_in_every_match(regex: &regex::Regex) -> (r: bool)
    ensures
        r == group_in_every_match(*regex),
{
    let groups = count_groups(regex);
    match count_static_groups(regex) {
        Some(n) => groups >= 2 && n == groups,
        None => false,
    }
}

/// Finds a pattern and its first group.
fn locate(regex: &regex::Regex, haystack: &str) -> (located: Option<Located>)
    requires
        group_in_every_match(*regex),
    ensures
        optional_located(located) == located_by(*regex, haystack@),
        takes_rest_of_line(*regex, haystack@, regex_captured(*regex, haystack@)),
        takes_package(*regex, haystack@, regex_captured(*regex, haystack@)),
{
    match capture(regex, haystack) {
        Some(mut groups) => {
            let ghost all = groups@;
            assert(all[0] is Some && all[1] is Some);
            let group = groups.swap_remove(1);
            let whole = groups.swap_remove(0);
            assert(group == all[1] && whole == all[0]);
            Some(Located { whole: whole.unwrap(), group: group.unwrap() })
        },
        None => None,
    }
}

impl EvalErrorAnalyzer {
    #[verifier::type_invariant]
    spec fn usable(self) -> bool {
        &&& compiled_regex(missing_pattern()) == Ok::<regex::Regex, regex::Error>(self.missing)
        &&& compiled_regex(broken_pattern()) == Ok::<regex::Regex, regex::Error>(self.broken)
        &&& compiled_regex(unfree_pattern()) == Ok::<regex::Regex, regex::Error>(self.unfree)
        &&& compiled_regex(missing_arg_pattern()) == Ok::<regex::Regex, regex::Error>(self.missing_arg)
        &&& compiled_regex(other_pattern()) == Ok::<regex::Regex, regex::Error>(self.other)
        &&& groups_in_every_match()
    }

    /// Compiles the patterns.
    pub fn new() -> (analyzer: Result<EvalErrorAnalyzer, PatternError>)
        ensures
            analyzer is Ok <==> patterns_compile() && groups_in_every_match(),
            analyzer matches Err(PatternError::Syntax(error)) ==> first_refusal() == Some(error),
            analyzer matches Err(PatternError::Groups) ==> patterns_compile()
                && !groups_in_every_match(),
    {
        let missing = match compile("error: attribute '[^']*' missing") {
            Ok(regex) => regex,
            Err(error) => {
                return Err(PatternError::Syntax(error));
            },
        };
        let broken = match compile(
            "error: Package ‘[^’]*’( in /nix/store[^ ]*) is marked as (broken|insecure), refusing to evaluate",
        ) {
            Ok(regex) => regex,
            Err(error) => {
                return Err(PatternError::Syntax(error));
            },
        };
        let unfree = match compile(
            "error: Package ‘[^’]*’( in /nix/store[^ ]*) has an unfree license \\(‘[^’]*’\\), refusing to evaluate",
        ) {
            Ok(regex) => regex,
            Err(error) => {
                return Err(PatternError::Syntax(error));
            },
        };
        let missing_arg = match compile(
            "callPackageWith: Function called without required argument \"[^\"]*\"",
        ) {
            Ok(regex) => regex,
            Err(error) => {
                return Err(PatternError::Syntax(error));
            },
        };
        let other = match compile("    (error: .*)") {
            Ok(regex) => regex,
            Err(error) => {
                return Err(PatternError::Syntax(error));
            },
        };
        if has_group_in_every_match(&broken) && has_group_in_every_match(&unfree)
            && has_group_in_every_match(&other) {
            Ok(EvalErrorAnalyzer { missing, broken, unfree, missing_arg, other })
        } else {
            Err(PatternError::Groups)
        }
    }

    /// The reason for an evaluation error, if one is recognized.
    pub fn analyze(&self, error: &str) -> (reason: Option<String>)
        ensures
            optional(reason) == reason_of(error@),
            explains(error@, optional(reason)),
    {
        proof {
            use_type_invariant(self);
            lemma_patterns();
        }
        let missing = find(&self.missing, error);
        proof {
            let pattern = enclosed_pattern("error: attribute '"@, '\'', "' missing"@);
            assert(compiled_regex(pattern) == Ok::<regex::Regex, regex::Error>(self.missing));
            if missing is Some {
                let (p, e) = choose|p: int, e: int| #[trigger]
                    encloses_first(error@, "error: attribute '"@, '\'', "' missing"@, p, e)
                        && missing->0@ == error@.subrange(p, e + "' missing"@.len());
                assert(tells_missing(error@, p, e));
            }
        }
        if missing.is_some() {
            return choose_reason(missing, None, None, None, None);
        }
        let broken = locate(&self.broken, error);
        proof {
            if broken is Some {
                let groups = regex_captured(self.broken, error@)->0;
                let (p, i, j, e) = choose|p: int, i: int, j: int, e: int| #[trigger]
                    tells_broken_first(error@, p, i, j, e) && takes(groups, error@, p, i + 1, j, e);
                assert(tells_broken(error@, p, i, j, e));
            }
        }
        if broken.is_some() {
            return choose_reason(None, broken, None, None, None);
        }
        let unfree = locate(&self.unfree, error);
        proof {
            if unfree is Some {
                let groups = regex_captured(self.unfree, error@)->0;
                let (p, i, j, k, e) = choose|p: int, i: int, j: int, k: int, e: int| #[trigger]
                    tells_unfree_first(error@, p, i, j, k, e) && takes(
                        groups,
                        error@,
                        p,
                        i + 1,
                        j,
                        e,
                    );
                assert(tells_unfree(error@, p, i, j, k, e));
            }
        }
        if unfree.is_some() {
            return choose_reason(None, None, unfree, None, None);
        }
        let missing_arg = find(&self.missing_arg, error);
        proof {
            let opening = "callPackageWith: Function called without required argument \""@;
            let pattern = enclosed_pattern(opening, '"', "\""@);
            assert(compiled_regex(pattern) == Ok::<regex::Regex, regex::Error>(self.missing_arg));
            if missing_arg is Some {
                let (p, e) = choose|p: int, e: int| #[trigger]
                    encloses_first(error@, opening, '"', "\""@, p, e) && missing_arg->0@
                        == error@.subrange(p, e + "\""@.len());
                assert(tells_missing_arg(error@, p, e));
            }
        }
        if missing_arg.is_some() {
            return choose_reason(None, None, None, missing_arg, None);
        }
        let other = locate(&self.other, error);
        proof {
            let pattern = rest_pattern("    "@, "error: "@);
            assert(compiled_regex(pattern) == Ok::<regex::Regex, regex::Error>(self.other));
            if other is Some {
                let groups = regex_captured(self.other, error@)->0;
                let (p, e) = choose|p: int, e: int| #[trigger]
                    runs_to_line_end(error@, "    "@ + "error: "@, p, e) && not_before(
                        error@,
                        "    "@ + "error: "@,
                        p,
                    ) && takes(groups, error@, p, p + "    "@.len(), e, e);
                assert(runs_to_line_end(error@, "    error: "@, p, e));
                assert(text::stands(error@, "    error: "@, p));
            }
        }
        choose_reason(None, None, None, None, other)
    }
}

} // verus!
