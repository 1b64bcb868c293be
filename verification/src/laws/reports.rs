//! What holds of the text of a report.

use crate::analyzer;
use crate::group;
use crate::group::{ListedModel, ShownModel};
use crate::laws::states;
use crate::laws::texts;
use crate::status;
use crate::status::{CiChange, EvalInfo, StatusModel};
use crate::summary;
use crate::summary::SummaryModel;
use crate::table;
use crate::text;
use vstd::prelude::*;
use vstd::string::*;

verus! {

// ---- Markdown ----

/// Texts are escaped part by part. The characters with a meaning get a backslash before them, and
/// the others stay as they are.
pub proof fn law_escaped_char_by_char(a: Seq<char>, b: Seq<char>, c: char)
    ensures
        summary::escaped(a + b) == summary::escaped(a) + summary::escaped(b),
        "\\`*_{}[]()#+-.!"@.contains(c) ==> summary::escaped(seq![c]) == seq!['\\', c],
        !"\\`*_{}[]()#+-.!"@.contains(c) ==> summary::escaped(seq![c]) == seq![c],
        summary::escaped(Seq::empty()) == Seq::<char>::empty(),
    decreases b.len(),
{
    reveal_strlit("\\`*_{}[]()#+-.!");
    let one = seq![c];
    let special = "\\`*_{}[]()#+-.!"@;
    assert(one.drop_last() =~= Seq::empty());
    assert(summary::escaped(one.drop_last()) =~= Seq::empty());
    assert(special.contains(c) == summary::is_markdown_special(c)) by {
        assert(special[0] == '\\' && special[1] == '`' && special[2] == '*' && special[3] == '_'
            && special[4] == '{' && special[5] == '}' && special[6] == '[' && special[7] == ']'
            && special[8] == '(' && special[9] == ')' && special[10] == '#' && special[11] == '+'
            && special[12] == '-' && special[13] == '.' && special[14] == '!');
        assert(special.len() == 15);
    }
    assert(summary::escaped(one) =~= if special.contains(c) {
        seq!['\\', c]
    } else {
        seq![c]
    });
    if b.len() == 0 {
        assert(a + b =~= a);
        assert(summary::escaped(a) + summary::escaped(b) =~= summary::escaped(a));
    } else {
        law_escaped_char_by_char(a, b.drop_last(), c);
        assert((a + b).drop_last() =~= a + b.drop_last());
        assert(summary::escaped(a + b) =~= summary::escaped(a) + summary::escaped(b));
    }
}

/// A link has its label in square brackets and its address in round ones behind them.
pub proof fn law_links_hold_label_and_address(label: Seq<char>, address: Seq<char>)
    ensures
        group::link(label, address) == seq!['['] + label + seq![']', '('] + address + seq![')'],
{
    reveal_strlit("[");
    reveal_strlit("](");
    reveal_strlit(")");
    assert("["@ =~= seq!['[']);
    assert("]("@ =~= seq![']', '(']);
    assert(")"@ =~= seq![')']);
}

// ---- pages ----

/// The page of a package has its name with an underscore for every hyphen, and the distribution
/// behind it.
pub proof fn law_page_names_package(distro: Seq<char>, package: Seq<char>, i: int)
    requires
        0 <= i < package.len(),
    ensures
        ({
            let page = group::index_page(distro, package);
            &&& page.take(24) == "https://index.ros.org/p/"@
            &&& page[24 + i] == (if package[i] == '-' {
                '_'
            } else {
                package[i]
            })
            &&& page.skip(24 + package.len() as int) == "/#"@ + distro
        }),
{
    reveal_strlit("https://index.ros.org/p/");
    let page = group::index_page(distro, package);
    assert(page.take(24) =~= "https://index.ros.org/p/"@);
    assert(page.skip(24 + package.len() as int) =~= "/#"@ + distro);
}

/// If the distribution is given, the attribute is the package.
pub proof fn law_page_in_given_distribution(attr: Seq<char>, distro: Seq<char>)
    ensures
        group::attr_page(attr, Some(distro)) == Some(group::index_page(distro, attr)),
        group::addressable(attr, Some(distro)),
{
}

/// If no distribution is given, the path below all distributions names the distribution and the
/// package, whatever goes on behind it.
pub proof fn law_page_below_all_distributions(
    attr: Seq<char>,
    distro: Seq<char>,
    package: Seq<char>,
    rest: Seq<char>,
)
    requires
        !distro.contains('.'),
        !package.contains('.'),
        attr == "rosPackages."@ + distro + "."@ + package || attr == "rosPackages."@ + distro + "."@
            + package + "."@ + rest,
    ensures
        group::attr_page(attr, None) == Some(group::index_page(distro, package)),
        group::addressable(attr, None),
{
    reveal_strlit("rosPackages.");
    reveal_strlit("rosPackages");
    reveal_strlit(".");
    let first = "rosPackages"@;
    assert(!first.contains('.'));
    let last = if attr == "rosPackages."@ + distro + "."@ + package {
        package
    } else {
        package.push('.') + rest
    };
    let behind = distro.push('.') + last;
    assert(attr =~= first.push('.') + behind);
    texts::law_first_piece(first, '.', behind);
    texts::law_first_piece(distro, '.', last);
    texts::law_first_piece(package, '.', rest);
    texts::law_pieces_joined_again(rest, '.');
    assert(text::pieces(last, '.')[0] == package);
    let parts = text::pieces(attr, '.');
    assert(parts[0] == first);
    assert(parts[1] == distro);
    assert(parts[2] == package);
}

/// If no distribution is given, what is not below all distributions has no page.
pub proof fn law_other_attributes_have_no_page(attr: Seq<char>)
    requires
        attr != "rosPackages"@,
        forall|rest: Seq<char>| attr != #[trigger] ("rosPackages."@ + rest),
    ensures
        group::attr_page(attr, None) is None,
        group::addressable(attr, None),
{
    let parts = text::pieces(attr, '.');
    texts::law_pieces_joined_again(attr, '.');
    if parts[0] == "rosPackages"@ {
        let (a, b) = (parts.take(1), parts.skip(1));
        assert(parts =~= a + b);
        texts::law_joined_in_parts(a, b, seq!['.']);
        if b.len() == 0 {
            assert(parts =~= a);
        } else {
            reveal_strlit("rosPackages.");
            reveal_strlit("rosPackages");
            let rest = text::joined(b, seq!['.']);
            assert(attr =~= "rosPackages."@ + rest);
        }
    }
}

/// If no distribution is given, a path below all distributions that ends before the package is
/// not clear.
pub proof fn law_short_paths_are_unclear(attr: Seq<char>, distro: Seq<char>)
    requires
        !distro.contains('.'),
        attr == "rosPackages"@ || attr == "rosPackages."@ + distro,
    ensures
        !group::addressable(attr, None),
{
    reveal_strlit("rosPackages.");
    reveal_strlit("rosPackages");
    let first = "rosPackages"@;
    texts::law_first_piece(first, '.', distro);
    texts::law_first_piece(distro, '.', distro);
    if attr != first {
        assert(attr =~= first.push('.') + distro);
    }
}

/// A link to the page of an attribute is there exactly if there is a page.
pub proof fn law_links_lead_to_pages(
    label: Seq<char>,
    attr: Seq<char>,
    distro: Option<Seq<char>>,
    page: Seq<char>,
)
    ensures
        group::attr_page(attr, distro) == Some(page) ==> {
            &&& group::labelled_link(label, attr, distro) == "["@ + label + "]("@ + page + ")"@
            &&& group::attr_link(attr, distro) == "["@ + attr + "]("@ + page + ")"@
        },
        group::attr_page(attr, distro) is None ==> {
            &&& group::labelled_link(label, attr, distro) == Seq::<char>::empty()
            &&& group::attr_link(attr, distro) == attr
        },
{
    reveal_strlit("");
    assert(""@ =~= Seq::empty());
}

// ---- lines ----

/// The line for a build links to the page of the build and to that of the attribute, and ends with
/// the numbers of its direct and of all dependents.
pub proof fn law_line_for_build(
    change: CiChange,
    attr: Seq<char>,
    page: Seq<char>,
    info: EvalInfo,
    distro: Option<Seq<char>>,
    direct: Seq<char>,
    all: Seq<char>,
)
    requires
        direct == text::decimal(info.direct_deps as nat),
        all == text::decimal(info.all_deps as nat),
    ensures
        group::attr_line(
            change,
            ListedModel { attr, shown: ShownModel::Build(page, info) },
            distro,
        ) == "  | "@ + ("["@ + attr + "]("@ + page + ")"@) + " | "@ + (match group::attr_page(
            attr,
            distro,
        ) {
            Some(index) => "["@ + "index"@ + "]("@ + index + ")"@,
            None => Seq::empty(),
        }) + " | "@ + direct + " | "@ + all + " |\n"@,
        texts::number_of(direct) == info.direct_deps,
        texts::number_of(all) == info.all_deps,
{
    texts::law_decimal_reads_back(info.direct_deps as nat);
    texts::law_decimal_reads_back(info.all_deps as nat);
    reveal_strlit("");
    assert(""@ =~= Seq::empty());
}

/// The line for an evaluation error shows the attribute and the description, unless the errors are
/// summed up.
pub proof fn law_line_for_error(
    change: CiChange,
    attr: Seq<char>,
    description: Seq<char>,
    distro: Option<Seq<char>>,
)
    ensures
        ({
            let line = group::attr_line(
                change,
                ListedModel { attr, shown: ShownModel::EvalError(description) },
                distro,
            );
            &&& change is EvalErrrorNoChange || change is NewEvalError ==> line == Seq::<char>::empty()
            &&& !(change is EvalErrrorNoChange || change is NewEvalError) ==> line == "  | "@
                + group::attr_link(attr, distro) + " | "@ + description + " |\n"@
        }),
{
    reveal_strlit("");
    assert(""@ =~= Seq::empty());
}

/// The line for an attribute without anything to show holds its name.
pub proof fn law_line_for_name(change: CiChange, attr: Seq<char>, distro: Option<Seq<char>>)
    ensures
        group::attr_line(change, ListedModel { attr, shown: ShownModel::Name }, distro) == seq![
            ' ',
            ' ',
            '-',
            ' ',
        ] + attr + seq!['\n'],
{
    reveal_strlit("  - ");
    reveal_strlit("\n");
    assert("  - "@ =~= seq![' ', ' ', '-', ' ']);
    assert("\n"@ =~= seq!['\n']);
}

/// The lines for attributes.
pub open spec fn lines_for(
    change: CiChange,
    items: Seq<ListedModel>,
    distro: Option<Seq<char>>,
) -> Seq<char> {
    text::concat(items.map_values(|item: ListedModel| group::attr_line(change, item, distro)))
}

/// A list has one line for each attribute, in order. If the first is no mere name, the header of
/// the table stands before the lines, once; if all are mere names, there is no header.
pub proof fn law_lists_have_one_header(
    change: CiChange,
    items: Seq<ListedModel>,
    distro: Option<Seq<char>>,
)
    ensures
        (forall|i: int| 0 <= i < items.len() ==> (#[trigger] items[i]).shown is Name)
            ==> group::listing(change, items, distro) == lines_for(change, items, distro),
        items.len() > 0 && items[0].shown !is Name ==> group::listing(change, items, distro)
            == group::table_header(change, items[0].shown) + lines_for(change, items, distro),
    decreases items.len(),
{
    let line = |item: ListedModel| group::attr_line(change, item, distro);
    if items.len() == 0 {
        assert(group::listing(change, items, distro) =~= lines_for(change, items, distro));
    } else {
        let fewer = items.drop_last();
        law_lists_have_one_header(change, fewer, distro);
        assert(items.map_values(line).drop_last() =~= fewer.map_values(line));
        assert(lines_for(change, items, distro) == lines_for(change, fewer, distro) + line(
            items.last(),
        ));
        if forall|i: int| 0 <= i < items.len() ==> (#[trigger] items[i]).shown is Name {
            assert(forall|i: int|
                0 <= i < fewer.len() ==> #[trigger] fewer[i] == items[i]);
            assert(items[items.len() - 1].shown is Name);
            assert(!group::opens_table(items));
            assert(group::listing(change, items, distro) =~= lines_for(change, items, distro));
        }
        if items[0].shown !is Name {
            let header = group::table_header(change, items[0].shown);
            if fewer.len() == 0 {
                assert(group::opens_table(items));
                assert(group::listing(change, fewer, distro) =~= Seq::empty());
                assert(lines_for(change, fewer, distro) =~= Seq::empty());
                assert(group::listing(change, items, distro) =~= header + lines_for(
                    change,
                    items,
                    distro,
                ));
            } else {
                assert(fewer[0] == items[0]);
                assert(!group::opens_table(items));
                assert(group::listing(change, items, distro) =~= header + lines_for(
                    change,
                    items,
                    distro,
                ));
            }
        }
    }
}

/// The table of builds has the columns for the attribute, its page and the two counts. A table of
/// errors names the attributes first, unless they are summed up by their reasons.
pub proof fn law_headers_name_columns(
    change: CiChange,
    page: Seq<char>,
    info: EvalInfo,
    description: Seq<char>,
)
    ensures
        group::table_header(change, ShownModel::Build(page, info))
            == "  | Attribute | ROS | deps. | all |\n  |-----------|-----|-------|-----|\n"@,
        group::table_header(change, ShownModel::EvalError(description)) == (
        if change is EvalErrrorNoChange || change is NewEvalError {
            "  | Reason | Attributes |\n  |--------|------------|\n"@
        } else {
            "  | Attribute | Reason |\n  |-----------|--------|\n"@
        }),
{
}

// ---- reasons ----

/// A reason is summed up exactly if it is the description of some evaluation error.
pub proof fn law_reasons_are_those_of_errors(
    a: Seq<ListedModel>,
    b: Seq<ListedModel>,
    item: ListedModel,
    reason: Seq<char>,
)
    ensures
        group::reasons(a + b) == group::reasons(a).union(group::reasons(b)),
        group::reasons(seq![item]).contains(reason) <==> item.shown == ShownModel::EvalError(reason),
        group::reasons(Seq::empty()) == Set::<Seq<char>>::empty(),
{
    let both = a + b;
    assert forall|r: Seq<char>|
        group::reasons(both).contains(r) == group::reasons(a).union(group::reasons(b)).contains(r) by {
        if group::reasons(a).contains(r) {
            let i = choose|i: int|
                0 <= i < a.len() && (#[trigger] a[i]).shown == ShownModel::EvalError(r);
            assert(both[i] == a[i]);
        }
        if group::reasons(b).contains(r) {
            let i = choose|i: int|
                0 <= i < b.len() && (#[trigger] b[i]).shown == ShownModel::EvalError(r);
            assert(both[a.len() + i] == b[i]);
        }
        if group::reasons(both).contains(r) {
            let i = choose|i: int|
                0 <= i < both.len() && (#[trigger] both[i]).shown == ShownModel::EvalError(r);
            if i < a.len() {
                assert(a[i] == both[i]);
            } else {
                assert(b[i - a.len()] == both[i]);
            }
        }
    }
    assert(group::reasons(both) =~= group::reasons(a).union(group::reasons(b)));
    assert(seq![item][0] == item);
    assert(group::reasons(Seq::empty()) =~= Set::empty());
}

/// Under a reason stand the attributes with an error of that description, in order, each as a link
/// to its page.
pub proof fn law_attributes_stand_under_their_reason(
    a: Seq<ListedModel>,
    b: Seq<ListedModel>,
    item: ListedModel,
    reason: Seq<char>,
    distro: Option<Seq<char>>,
)
    ensures
        group::links_for(a + b, reason, distro) == group::links_for(a, reason, distro)
            + group::links_for(b, reason, distro),
        item.shown == ShownModel::EvalError(reason) ==> group::links_for(
            seq![item],
            reason,
            distro,
        ) == seq![group::attr_link(item.attr, distro)],
        item.shown != ShownModel::EvalError(reason) ==> group::links_for(
            seq![item],
            reason,
            distro,
        ).len() == 0,
        group::links_for(Seq::empty(), reason, distro).len() == 0,
{
    let kept = |item: ListedModel| item.shown == ShownModel::EvalError(reason);
    let changed = |item: ListedModel| group::attr_link(item.attr, distro);
    states::lemma_filter_map_in_parts(a, b, kept, changed);
    states::lemma_filter_map_in_parts(seq![item], b, kept, changed);
    states::lemma_filter_map_in_parts(Seq::empty(), b, kept, changed);
}

/// The errors of attributes are summed up in one line for each reason, in the order of the reasons.
pub proof fn law_one_line_for_each_reason(
    items: Seq<ListedModel>,
    distro: Option<Seq<char>>,
    sorted: Seq<Seq<char>>,
    lines: Seq<Seq<char>>,
)
    requires
        table::strictly_sorted(sorted),
        sorted.to_set() == group::reasons(items),
        lines.len() == sorted.len(),
        forall|i: int|
            0 <= i < lines.len() ==> #[trigger] lines[i] == "  | "@ + sorted[i] + " | "@
                + text::joined(group::links_for(items, sorted[i], distro), ", "@) + " |\n"@,
    ensures
        group::reason_lines(items, distro) == text::concat(lines),
{
    table::lemma_sorted_keys(sorted);
    let line = |reason: Seq<char>|
        group::reason_line(reason, group::links_for(items, reason, distro));
    assert(sorted.map_values(line) =~= lines);
}

/// Hydra compares the new evaluation with the old one.
pub proof fn law_comparison_names_both_evaluations(
    old_id: u64,
    new_id: u64,
    old_digits: Seq<char>,
    new_digits: Seq<char>,
)
    requires
        old_digits == text::decimal(old_id as nat),
        new_digits == text::decimal(new_id as nat),
    ensures
        group::comparison_link(old_id, new_id)
            == "[Hydra comparison](https://hydra.iid.ciirc.cvut.cz/eval/"@ + new_digits
            + "?compare="@ + old_digits + ")\n"@,
        texts::number_of(old_digits) == old_id,
        texts::number_of(new_digits) == new_id,
{
    texts::law_decimal_reads_back(old_id as nat);
    texts::law_decimal_reads_back(new_id as nat);
}

// ---- sections ----

/// What is said of an evaluation error is its reason, or that it is not recognized.
pub proof fn law_errors_are_described_by_reason(reason: Seq<char>)
    ensures
        summary::description(Some(reason)) == seq!['`', '`', '`', ' '] + reason + seq![
            ' ',
            '`',
            '`',
            '`',
        ],
        summary::description(None) == "Unrecognized eval error"@,
{
    reveal_strlit("``` ");
    reveal_strlit(" ```");
    assert("``` "@ =~= seq!['`', '`', '`', ' ']);
    assert(" ```"@ =~= seq![' ', '`', '`', '`']);
}

/// What is shown of an attribute is its state in the new evaluation: a build with its page and its
/// dependents, the description of an evaluation error, or else nothing but the name.
pub proof fn law_new_state_is_shown(eval: SummaryModel, attr: Seq<char>)
    ensures
        summary::listed_in(eval, attr).attr == attr,
        eval.attrs.contains_key(attr) ==> match eval.attrs[attr] {
            StatusModel::Build(info, build) => summary::listed_in(eval, attr).shown
                == ShownModel::Build(
                "https://hydra.iid.ciirc.cvut.cz/build/"@ + text::decimal(build.id as nat),
                info,
            ),
            StatusModel::EvalError(error) => summary::listed_in(eval, attr).shown
                == ShownModel::EvalError(summary::description(analyzer::reason_of(error))),
            StatusModel::Unbuilt => summary::listed_in(eval, attr).shown is Name,
        },
        !eval.attrs.contains_key(attr) ==> summary::listed_in(eval, attr).shown is Name,
{
}

/// What happened to an attribute depends on which evaluations have it, and on how it stands.
pub proof fn law_change_of_attribute(
    old_eval: SummaryModel,
    new_eval: SummaryModel,
    attr: Seq<char>,
)
    ensures
        ({
            let change = summary::change_in(old_eval, new_eval, attr);
            let (before, after) = (old_eval.attrs.contains_key(attr), new_eval.attrs.contains_key(attr));
            &&& before && after ==> change == Some(
                status::change_between(
                    old_eval.attrs[attr].standing(),
                    new_eval.attrs[attr].standing(),
                ),
            )
            &&& before && !after ==> change == Some(CiChange::Removed)
            &&& !before && after ==> change == Some(
                status::change_as_new(new_eval.attrs[attr].standing()),
            )
            &&& !before && !after ==> change is None
        }),
{
}

/// The attributes in the section for a change, in order.
pub open spec fn attrs_in_section(
    old_eval: SummaryModel,
    new_eval: SummaryModel,
    change: CiChange,
    attrs: Seq<Seq<char>>,
) -> bool {
    &&& table::strictly_sorted(attrs)
    &&& forall|attr: Seq<char>| #[trigger]
        attrs.contains(attr) <==> summary::change_in(old_eval, new_eval, attr) == Some(change)
}

/// A section begins with its caption and the number of its attributes. Then come a link to the
/// comparison on Hydra, where an attribute still builds, still fails to or still is unbuilt; the
/// reasons, where attributes have an evaluation error that is new or still there; and otherwise
/// the attributes one by one. A change that no attribute has is not reported.
pub proof fn law_text_of_section(
    old_eval: SummaryModel,
    new_eval: SummaryModel,
    change: CiChange,
    attrs: Seq<Seq<char>>,
    items: Seq<ListedModel>,
    count: Seq<char>,
    body: Seq<char>,
)
    requires
        attrs_in_section(old_eval, new_eval, change, attrs),
        items == attrs.map_values(|attr: Seq<char>| summary::listed_in(new_eval, attr)),
        count == text::decimal(attrs.len()),
        body == (if change is BuildSuccessNoChange || change is BuildFailureNoChange || change
            is UnbuiltNoChange {
            group::comparison_link(old_eval.eval_id, new_eval.eval_id)
        } else if change is EvalErrrorNoChange || change is NewEvalError {
            "  | Reason | Attributes |\n  |--------|------------|\n"@ + group::reason_lines(
                items,
                old_eval.distro,
            )
        } else if change is Removed || change is AddedUnbuilt || change is NewUnbuiltAttr {
            lines_for(change, items, old_eval.distro)
        } else if change is AddedEvalError || change is UnbuiltToEvalError {
            "  | Attribute | Reason |\n  |-----------|--------|\n"@ + lines_for(
                change,
                items,
                old_eval.distro,
            )
        } else {
            "  | Attribute | ROS | deps. | all |\n  |-----------|-----|-------|-----|\n"@ + lines_for(
                change,
                items,
                old_eval.distro,
            )
        }),
    ensures
        attrs.len() == 0 ==> summary::section(old_eval, new_eval, change) == Seq::<char>::empty(),
        attrs.len() > 0 ==> summary::section(old_eval, new_eval, change) == "<details>\n<summary>"@
            + change.caption() + ": "@ + count + "</summary>\n\n\n"@ + body + "</details>\n\n"@,
        texts::number_of(count) == attrs.len(),
{
    let own = summary::changed(old_eval, new_eval, change);
    assert(attrs.to_set() =~= own) by {
        assert forall|attr: Seq<char>| attrs.to_set().contains(attr) == own.contains(attr) by {
            assert(attrs.to_set().contains(attr) == attrs.contains(attr));
        }
    }
    table::lemma_sorted_keys(attrs);
    assert(summary::group_items(old_eval, new_eval, change) == items);
    texts::law_decimal_reads_back(attrs.len());
    if attrs.len() > 0 {
        lemma_kinds_in_section(old_eval, new_eval, change, attrs, items);
        law_lists_have_one_header(change, items, old_eval.distro);
        if change is EvalErrrorNoChange || change is NewEvalError {
            lemma_no_lines(change, items, old_eval.distro);
            let header = "  | Reason | Attributes |\n  |--------|------------|\n"@;
            assert(group::listing(change, items, old_eval.distro) =~= header);
        }
        assert(group::group_body(
            change,
            items,
            old_eval.distro,
            old_eval.eval_id,
            new_eval.eval_id,
        ) == body);
    }
}

/// The change decides what is shown of the attributes in its section.
proof fn lemma_kinds_in_section(
    old_eval: SummaryModel,
    new_eval: SummaryModel,
    change: CiChange,
    attrs: Seq<Seq<char>>,
    items: Seq<ListedModel>,
)
    requires
        attrs_in_section(old_eval, new_eval, change, attrs),
        items == attrs.map_values(|attr: Seq<char>| summary::listed_in(new_eval, attr)),
    ensures
        forall|i: int|
            0 <= i < items.len() ==> {
                let shown = (#[trigger] items[i]).shown;
                &&& shown is Name <==> change is Removed || change is AddedUnbuilt || change
                    is NewUnbuiltAttr || change is UnbuiltNoChange
                &&& shown is EvalError <==> change is EvalErrrorNoChange || change is NewEvalError
                    || change is AddedEvalError || change is UnbuiltToEvalError
            },
{
    assert forall|i: int| 0 <= i < items.len() implies {
        let shown = (#[trigger] items[i]).shown;
        &&& shown is Name <==> change is Removed || change is AddedUnbuilt || change
            is NewUnbuiltAttr || change is UnbuiltNoChange
        &&& shown is EvalError <==> change is EvalErrrorNoChange || change is NewEvalError || change
            is AddedEvalError || change is UnbuiltToEvalError
    } by {
        assert(attrs.contains(attrs[i]));
        law_change_of_attribute(old_eval, new_eval, attrs[i]);
    }
}

/// Errors that are summed up have no lines of their own.
proof fn lemma_no_lines(change: CiChange, items: Seq<ListedModel>, distro: Option<Seq<char>>)
    requires
        change is EvalErrrorNoChange || change is NewEvalError,
        forall|i: int| 0 <= i < items.len() ==> (#[trigger] items[i]).shown is EvalError,
    ensures
        lines_for(change, items, distro) == Seq::<char>::empty(),
    decreases items.len(),
{
    let line = |item: ListedModel| group::attr_line(change, item, distro);
    if items.len() > 0 {
        let fewer = items.drop_last();
        assert forall|i: int| 0 <= i < fewer.len() implies (#[trigger] fewer[i]).shown is EvalError by {
            assert(items[i].shown is EvalError);
        }
        lemma_no_lines(change, fewer, distro);
        assert(items.map_values(line).drop_last() =~= fewer.map_values(line));
        assert(items[items.len() - 1].shown is EvalError);
        reveal_strlit("");
        assert(lines_for(change, items, distro) =~= Seq::empty());
    } else {
        assert(lines_for(change, items, distro) =~= Seq::empty());
    }
}

/// Only the attributes that are listed or summed up by a reason, and of which more than the name is
/// shown, are linked to their pages; if that is not clear for one, the evaluations cannot be
/// compared. The distribution of the old evaluation counts.
pub proof fn law_which_pages_have_to_be_clear(
    old_eval: SummaryModel,
    new_eval: SummaryModel,
    attr: Seq<char>,
    change: CiChange,
)
    requires
        summary::change_in(old_eval, new_eval, attr) == Some(change),
    ensures
        summary::unclear(old_eval, new_eval, attr) <==> {
            &&& !(change is BuildSuccessNoChange || change is BuildFailureNoChange || change
                is UnbuiltNoChange)
            &&& new_eval.attrs.contains_key(attr)
            &&& new_eval.attrs[attr] !is Unbuilt
            &&& !group::addressable(attr, old_eval.distro)
        },
{
}

/// A message on an aborted build is owed exactly if some attribute has a build that finished with
/// the status 3, and it names such an attribute and the page of its build.
pub proof fn law_aborted_builds_are_told(eval: SummaryModel, message: Seq<char>)
    ensures
        eval.any_aborted() <==> exists|attr: Seq<char>| #[trigger]
            eval.attrs.contains_key(attr) && eval.attrs[attr] is Build
                && eval.attrs[attr]->Build_1.finished == 1
                && eval.attrs[attr]->Build_1.buildstatus == 3,
        summary::tells_abortion(eval, message) ==> exists|attr: Seq<char>| #[trigger]
            eval.attrs.contains_key(attr) && eval.attrs[attr] is Build
                && eval.attrs[attr]->Build_1.finished == 1
                && eval.attrs[attr]->Build_1.buildstatus == 3 && message == "attribute "@ + attr
                + " aborted in, see "@ + ("https://hydra.iid.ciirc.cvut.cz/build/"@ + text::decimal(
                eval.attrs[attr]->Build_1.id as nat,
            )),
{
    if eval.any_aborted() {
        let attr = choose|attr: Seq<char>| eval.aborted(attr);
        assert(eval.attrs.contains_key(attr));
    }
    if exists|attr: Seq<char>| #[trigger]
        eval.attrs.contains_key(attr) && eval.attrs[attr] is Build
            && eval.attrs[attr]->Build_1.finished == 1
            && eval.attrs[attr]->Build_1.buildstatus == 3 {
        let attr = choose|attr: Seq<char>| #[trigger]
            eval.attrs.contains_key(attr) && eval.attrs[attr] is Build
                && eval.attrs[attr]->Build_1.finished == 1
                && eval.attrs[attr]->Build_1.buildstatus == 3;
        assert(eval.aborted(attr));
    }
    if summary::tells_abortion(eval, message) {
        let attr = choose|attr: Seq<char>| #[trigger]
            eval.aborted(attr) && message == status::abortion_notice(
                attr,
                eval.attrs[attr]->Build_1,
            );
        assert(eval.attrs.contains_key(attr));
    }
}

/// A report has a heading and then the section for every change, in the order of the changes.
pub proof fn law_report_holds_sections_in_order(
    old_eval: SummaryModel,
    new_eval: SummaryModel,
    sections: Seq<Seq<char>>,
)
    requires
        sections.len() == 18,
        forall|j: int|
            0 <= j < 18 ==> #[trigger] sections[j] == summary::section(
                old_eval,
                new_eval,
                CiChange::in_order()[j],
            ),
    ensures
        summary::report(old_eval, new_eval) == "### Hydra build and evaluation statistics\n"@
            + text::concat(sections),
{
    let all = CiChange::in_order().map_values(
        |change: CiChange| summary::section(old_eval, new_eval, change),
    );
    assert(all =~= sections);
}

} // verus!
