//! The attributes with the same change, as a collapsible section of Markdown.

use crate::status::{CiChange, EvalInfo};
use crate::table;
use crate::table::Table;
use crate::text;
use crate::text::{decimal_text, join, replace_char, same_text, split_at_char};
use vstd::prelude::*;
use vstd::string::*;

verus! {

/// The page of a package in the ROS index.
pub open spec fn index_page(distro: Seq<char>, package: Seq<char>) -> Seq<char> {
    "https://index.ros.org/p/"@ + text::with_char_replaced(package, '-', '_') + "/#"@ + distro
}

/// The attribute is the path of a package below all ROS distributions.
pub open spec fn is_ros_path(attr: Seq<char>) -> bool {
    text::pieces(attr, '.')[0] == "rosPackages"@
}

/// It is clear which package an attribute stands for: if the distribution is not given, a path
/// below all distributions goes on with a distribution and a package.
pub open spec fn addressable(attr: Seq<char>, distro: Option<Seq<char>>) -> bool {
    distro is None && is_ros_path(attr) ==> text::pieces(attr, '.').len() >= 3
}

/// The page of an attribute in the ROS index, if it stands for a ROS package.
pub open spec fn attr_page(attr: Seq<char>, distro: Option<Seq<char>>) -> Option<Seq<char>> {
    match distro {
        Some(distro) => Some(index_page(distro, attr)),
        None => if is_ros_path(attr) {
            let parts = text::pieces(attr, '.');
            Some(index_page(parts[1], parts[2]))
        } else {
            None
        },
    }
}

/// A Markdown link.
pub open spec fn link(label: Seq<char>, address: Seq<char>) -> Seq<char> {
    "["@ + label + "]("@ + address + ")"@
}

/// A link with the given label to the page of an attribute, or nothing.
pub open spec fn labelled_link(label: Seq<char>, attr: Seq<char>, distro: Option<Seq<char>>) -> Seq<
    char,
> {
    match attr_page(attr, distro) {
        Some(page) => link(label, page),
        None => ""@,
    }
}

/// The attribute, as a link to its page if it has one.
pub open spec fn attr_link(attr: Seq<char>, distro: Option<Seq<char>>) -> Seq<char> {
    match attr_page(attr, distro) {
        Some(page) => link(attr, page),
        None => attr,
    }
}

/// An optional borrowed text, as a character sequence.
pub open spec fn optional_str(s: Option<&str>) -> Option<Seq<char>> {
    match s {
        Some(s) => Some(s@),
        None => None,
    }
}

/// The address of the page of a package in the ROS index.
fn package_url(distro: &str, package: &str) -> (url: String)
    ensures
        url@ == index_page(distro@, package@),
{
    let mut url = "https://index.ros.org/p/".to_owned();
    url.append(&replace_char(package, '-', '_'));
    url.append("/#");
    url.append(distro);
    url
}

/// Whether it is clear which package an attribute stands for.
pub fn is_addressable(attr: &str, distro: Option<&str>) -> (r: bool)
    ensures
        r == addressable(attr@, optional_str(distro)),
{
    match distro {
        Some(_) => true,
        None => {
            let parts = split_at_char(attr, '.');
            proof {
                text::lemma_pieces_nonempty(attr@, '.');
                assert(text::views(parts@)[0] == parts@[0]@);
            }
            !same_text(&parts[0], "rosPackages") || parts.len() >= 3
        },
    }
}

/// The address of the page of an attribute in the ROS index.
pub fn attr_url(attr: &str, distro: Option<&str>) -> (url: Option<String>)
    requires
        addressable(attr@, optional_str(distro)),
    ensures
        match url {
            Some(url) => attr_page(attr@, optional_str(distro)) == Some(url@),
            None => attr_page(attr@, optional_str(distro)) is None,
        },
{
    match distro {
        Some(distro) => Some(package_url(distro, attr)),
        None => {
            let parts = split_at_char(attr, '.');
            proof {
                text::lemma_pieces_nonempty(attr@, '.');
                assert(forall|i: int|
                    0 <= i < parts@.len() ==> text::views(parts@)[i] == #[trigger] parts@[i]@);
            }
            if same_text(&parts[0], "rosPackages") {
                Some(package_url(&parts[1], &parts[2]))
            } else {
                None
            }
        },
    }
}

/// Writes a Markdown link.
fn markdown(label: &str, address: &str) -> (r: String)
    ensures
        r@ == link(label@, address@),
{
    let mut r = "[".to_owned();
    r.append(label);
    r.append("](");
    r.append(address);
    r.append(")");
    r
}

/// Writes a link with the given label to the page of an attribute, or nothing.
pub fn write_labelled_link(label: &str, attr: &str, distro: Option<&str>) -> (r: String)
    requires
        addressable(attr@, optional_str(distro)),
    ensures
        r@ == labelled_link(label@, attr@, optional_str(distro)),
{
    match attr_url(attr, distro) {
        Some(url) => markdown(label, &url),
        None => "".to_owned(),
    }
}

/// Writes an attribute, as a link to its page if it has one.
pub fn write_attr_link(attr: &str, distro: Option<&str>) -> (r: String)
    requires
        addressable(attr@, optional_str(distro)),
    ensures
        r@ == attr_link(attr@, optional_str(distro)),
{
    match attr_url(attr, distro) {
        Some(url) => markdown(attr, &url),
        None => attr.to_owned(),
    }
}

/// What is shown of an attribute: its build with the address of the build's page, the
/// description of its evaluation error, or its name alone.
pub enum Shown {
    Build(String, EvalInfo),
    EvalError(String),
    Name,
}

/// An attribute and what is shown of it.
pub struct Listed {
    pub attr: String,
    pub shown: Shown,
}

/// The mathematical content of a [`Shown`].
pub enum ShownModel {
    Build(Seq<char>, EvalInfo),
    EvalError(Seq<char>),
    Name,
}

/// The mathematical content of a [`Listed`].
pub struct ListedModel {
    pub attr: Seq<char>,
    pub shown: ShownModel,
}

impl View for Shown {
    type V = ShownModel;

    open spec fn view(&self) -> ShownModel {
        match self {
            Shown::Build(url, info) => ShownModel::Build(url@, *info),
            Shown::EvalError(description) => ShownModel::EvalError(description@),
            Shown::Name => ShownModel::Name,
        }
    }
}

impl View for Listed {
    type V = ListedModel;

    open spec fn view(&self) -> ListedModel {
        ListedModel { attr: self.attr@, shown: self.shown@ }
    }
}

/// A list of attributes, as its content.
pub open spec fn listed_views(items: Seq<Listed>) -> Seq<ListedModel> {
    items.map_values(|item: Listed| item@)
}

/// The header of the table that a first row opens.
pub open spec fn table_header(change: CiChange, shown: ShownModel) -> Seq<char> {
    match shown {
        ShownModel::Build(_, _) => "  | Attribute | ROS | deps. | all |\n  |-----------|-----|-------|-----|\n"@,
        ShownModel::EvalError(_) => if change.sums_up_reasons() {
            "  | Reason | Attributes |\n  |--------|------------|\n"@
        } else {
            "  | Attribute | Reason |\n  |-----------|--------|\n"@
        },
        ShownModel::Name => ""@,
    }
}

/// The line for one attribute. An evaluation error that is summed up has no line of its own.
pub open spec fn attr_line(change: CiChange, item: ListedModel, distro: Option<Seq<char>>) -> Seq<
    char,
> {
    match item.shown {
        ShownModel::Build(page, info) => "  | "@ + link(item.attr, page) + " | "@ + labelled_link(
            "index"@,
            item.attr,
            distro,
        ) + " | "@ + text::decimal(info.direct_deps as nat) + " | "@ + text::decimal(
            info.all_deps as nat,
        ) + " |\n"@,
        ShownModel::EvalError(description) => if change.sums_up_reasons() {
            ""@
        } else {
            "  | "@ + attr_link(item.attr, distro) + " | "@ + description + " |\n"@
        },
        ShownModel::Name => "  - "@ + item.attr + "\n"@,
    }
}

/// The last attribute is the first one that needs a table.
pub open spec fn opens_table(items: Seq<ListedModel>) -> bool {
    &&& items.last().shown !is Name
    &&& forall|i: int| 0 <= i < items.len() - 1 ==> (#[trigger] items[i]).shown is Name
}

/// The lines for the attributes, with a table header before the first that needs one.
pub open spec fn listing(change: CiChange, items: Seq<ListedModel>, distro: Option<Seq<char>>) -> Seq<
    char,
>
    decreases items.len(),
{
    if items.len() == 0 {
        Seq::empty()
    } else {
        listing(change, items.drop_last(), distro) + (if opens_table(items) {
            table_header(change, items.last().shown)
        } else {
            Seq::empty()
        }) + attr_line(change, items.last(), distro)
    }
}

/// The descriptions of the evaluation errors.
pub open spec fn reasons(items: Seq<ListedModel>) -> Set<Seq<char>> {
    Set::new(
        |reason: Seq<char>|
            exists|i: int|
                0 <= i < items.len() && (#[trigger] items[i]).shown == ShownModel::EvalError(reason),
    )
}

/// The attributes whose evaluation error has a given description.
pub open spec fn links_for(
    items: Seq<ListedModel>,
    reason: Seq<char>,
    distro: Option<Seq<char>>,
) -> Seq<Seq<char>> {
    items.filter(|item: ListedModel| item.shown == ShownModel::EvalError(reason)).map_values(
        |item: ListedModel| attr_link(item.attr, distro),
    )
}

/// The line for the evaluation errors with a given description.
pub open spec fn reason_line(reason: Seq<char>, links: Seq<Seq<char>>) -> Seq<char> {
    "  | "@ + reason + " | "@ + text::joined(links, ", "@) + " |\n"@
}

/// The lines for all evaluation errors, in the order of their descriptions.
pub open spec fn reason_lines(items: Seq<ListedModel>, distro: Option<Seq<char>>) -> Seq<char> {
    text::concat(
        table::sorted_keys(reasons(items)).map_values(
            |reason: Seq<char>| reason_line(reason, links_for(items, reason, distro)),
        ),
    )
}

/// A link to Hydra's own comparison of the two evaluations.
pub open spec fn comparison_link(old_id: u64, new_id: u64) -> Seq<char> {
    "[Hydra comparison](https://hydra.iid.ciirc.cvut.cz/eval/"@ + text::decimal(new_id as nat)
        + "?compare="@ + text::decimal(old_id as nat) + ")\n"@
}

/// What a section says of its attributes.
pub open spec fn group_body(
    change: CiChange,
    items: Seq<ListedModel>,
    distro: Option<Seq<char>>,
    old_id: u64,
    new_id: u64,
) -> Seq<char> {
    if change.sums_up_reasons() {
        listing(change, items, distro) + reason_lines(items, distro)
    } else if change.lists_attributes() {
        listing(change, items, distro)
    } else {
        comparison_link(old_id, new_id)
    }
}

/// The section for the attributes with a change.
pub open spec fn group_text(
    change: CiChange,
    items: Seq<ListedModel>,
    distro: Option<Seq<char>>,
    old_id: u64,
    new_id: u64,
) -> Seq<char> {
    "<details>\n<summary>"@ + change.caption() + ": "@ + text::decimal(items.len())
        + "</summary>\n\n\n"@ + group_body(change, items, distro, old_id, new_id)
        + "</details>\n\n"@
}

/// The section links to the page of the attribute, as far as it has one.
pub open spec fn refers_to_page(change: CiChange, item: ListedModel) -> bool {
    (change.lists_attributes() || change.sums_up_reasons()) && item.shown !is Name
}

/// It is clear which package an attribute stands for, wherever the section links to it.
pub open spec fn links_are_clear(
    change: CiChange,
    items: Seq<ListedModel>,
    distro: Option<Seq<char>>,
) -> bool {
    forall|i: int|
        0 <= i < items.len() ==> refers_to_page(change, #[trigger] items[i]) ==> addressable(
            items[i].attr,
            distro,
        )
}

/// Writes the line for one attribute.
fn write_attr_line(change: CiChange, item: &Listed, distro: Option<&str>) -> (line: String)
    requires
        item@.shown !is Name ==> addressable(item.attr@, optional_str(distro)),
    ensures
        line@ == attr_line(change, item@, optional_str(distro)),
{
    match &item.shown {
        Shown::Build(url, info) => {
            let mut line = "  | ".to_owned();
            line.append(&markdown(&item.attr, url));
            line.append(" | ");
            line.append(&write_labelled_link("index", &item.attr, distro));
            line.append(" | ");
            line.append(&decimal_text(info.direct_deps as u64));
            line.append(" | ");
            line.append(&decimal_text(info.all_deps as u64));
            line.append(" |\n");
            line
        },
        Shown::EvalError(description) => if change.summary() {
            "".to_owned()
        } else {
            let mut line = "  | ".to_owned();
            line.append(&write_attr_link(&item.attr, distro));
            line.append(" | ");
            line.append(description);
            line.append(" |\n");
            line
        },
        Shown::Name => {
            let mut line = "  - ".to_owned();
            line.append(&item.attr);
            line.append("\n");
            line
        },
    }
}

/// The header of the table that a first row opens.
fn header_for(change: CiChange, shown: &Shown) -> (header: &'static str)
    ensures
        header@ == table_header(change, shown@),
{
    match shown {
        Shown::Build(_, _) => "  | Attribute | ROS | deps. | all |\n  |-----------|-----|-------|-----|\n",
        Shown::EvalError(_) => if change.summary() {
            "  | Reason | Attributes |\n  |--------|------------|\n"
        } else {
            "  | Attribute | Reason |\n  |-----------|--------|\n"
        },
        Shown::Name => "",
    }
}

/// Writes the lines for the attributes.
fn write_listing(change: CiChange, items: &Vec<Listed>, distro: Option<&str>) -> (r: String)
    requires
        change.lists_attributes() || change.sums_up_reasons(),
        links_are_clear(change, listed_views(items@), optional_str(distro)),
    ensures
        r@ == listing(change, listed_views(items@), optional_str(distro)),
{
    let ghost all = listed_views(items@);
    let mut r = String::new();
    let mut has_header = false;
    let mut i: usize = 0;
    while i < items.len()
        invariant
            i <= items@.len(),
            all == listed_views(items@),
            change.lists_attributes() || change.sums_up_reasons(),
            links_are_clear(change, all, optional_str(distro)),
            has_header <==> exists|j: int| 0 <= j < i && (#[trigger] all[j]).shown !is Name,
            r@ == listing(change, all.take(i as int), optional_str(distro)),
        decreases items.len() - i,
    {
        let item = &items[i];
        let ghost so_far = all.take(i as int);
        let ghost next = all.take(i + 1);
        assert(all[i as int] == item@);
        assert(refers_to_page(change, all[i as int]) <==> item@.shown !is Name);
        assert(next.drop_last() =~= so_far);
        let is_name = match &item.shown {
            Shown::Name => true,
            _ => false,
        };
        proof {
            assert(opens_table(next) <==> !has_header && !is_name) by {
                if !has_header && !is_name {
                    assert forall|j: int| 0 <= j < next.len() - 1 implies (
                    #[trigger] next[j]).shown is Name by {
                        assert(all[j].shown is Name);
                    }
                }
                if has_header {
                    let j = choose|j: int| 0 <= j < i && (#[trigger] all[j]).shown !is Name;
                    assert(next[j] == all[j]);
                }
            }
        }
        if !has_header && !is_name {
            r.append(header_for(change, &item.shown));
        }
        if !is_name {
            has_header = true;
        }
        let line = write_attr_line(change, item, distro);
        r.append(&line);
        assert(r@ =~= listing(change, next, optional_str(distro)));
        proof {
            assert(all[i as int].shown !is Name <==> !is_name);
        }
        i += 1;
    }
    assert(all.take(i as int) =~= all);
    r
}

/// What one more attribute adds to the links for a description.
proof fn lemma_links_step(
    items: Seq<ListedModel>,
    n: int,
    reason: Seq<char>,
    distro: Option<Seq<char>>,
)
    requires
        0 <= n < items.len(),
    ensures
        links_for(items.take(n + 1), reason, distro) == (if items[n].shown
            == ShownModel::EvalError(reason) {
            links_for(items.take(n), reason, distro).push(attr_link(items[n].attr, distro))
        } else {
            links_for(items.take(n), reason, distro)
        }),
{
    reveal(Seq::filter);
    let next = items.take(n + 1);
    assert(next.drop_last() =~= items.take(n));
    assert(next.last() == items[n]);
    let same = |item: ListedModel| item.shown == ShownModel::EvalError(reason);
    let shown = |item: ListedModel| attr_link(item.attr, distro);
    assert(links_for(next, reason, distro) =~= (if same(items[n]) {
        items.take(n).filter(same).push(items[n]).map_values(shown)
    } else {
        items.take(n).filter(same).map_values(shown)
    }));
    assert(items.take(n).filter(same).push(items[n]).map_values(shown) =~= items.take(n).filter(
        same,
    ).map_values(shown).push(shown(items[n])));
}

/// What one more attribute adds to the descriptions.
proof fn lemma_reasons_step(items: Seq<ListedModel>, n: int)
    requires
        0 <= n < items.len(),
    ensures
        reasons(items.take(n + 1)) == (match items[n].shown {
            ShownModel::EvalError(reason) => reasons(items.take(n)).insert(reason),
            _ => reasons(items.take(n)),
        }),
{
    let (a, b) = (items.take(n), items.take(n + 1));
    assert forall|reason: Seq<char>|
        reasons(b).contains(reason) == (reasons(a).contains(reason) || items[n].shown
            == ShownModel::EvalError(reason)) by {
        if reasons(b).contains(reason) {
            let i = choose|i: int|
                0 <= i < b.len() && (#[trigger] b[i]).shown == ShownModel::EvalError(reason);
            if i < n {
                assert(a[i].shown == ShownModel::EvalError(reason));
            }
        }
        if reasons(a).contains(reason) {
            let i = choose|i: int|
                0 <= i < a.len() && (#[trigger] a[i]).shown == ShownModel::EvalError(reason);
            assert(b[i].shown == ShownModel::EvalError(reason));
        }
        assert(b[n] == items[n]);
    }
    match items[n].shown {
        ShownModel::EvalError(reason) => {
            assert(reasons(b) =~= reasons(a).insert(reason));
        },
        _ => {
            assert(reasons(b) =~= reasons(a));
        },
    }
}

/// Sorts the links by the descriptions of the evaluation errors.
fn links_by_reason<'a>(items: &'a Vec<Listed>, distro: Option<&str>) -> (links: Table<
    'a,
    Vec<String>,
>)
    requires
        forall|i: int|
            0 <= i < items@.len() ==> (#[trigger] items@[i])@.shown !is Name ==> addressable(
                items@[i].attr@,
                optional_str(distro),
            ),
    ensures
        links@.dom() == reasons(listed_views(items@)),
        forall|reason: Seq<char>| #[trigger]
            text::views(links.items(reason)) == links_for(
                listed_views(items@),
                reason,
                optional_str(distro),
            ),
{
    let ghost all = listed_views(items@);
    let ghost d = optional_str(distro);
    let mut links: Table<'a, Vec<String>> = Table::new();
    let mut i: usize = 0;
    proof {
        reveal(Seq::filter);
        assert(links@.dom() =~= reasons(all.take(0)));
        assert forall|reason: Seq<char>| #[trigger]
            text::views(links.items(reason)) == links_for(all.take(0), reason, d) by {
            assert(text::views(links.items(reason)) =~= links_for(all.take(0), reason, d));
        }
    }
    while i < items.len()
        invariant
            i <= items@.len(),
            all == listed_views(items@),
            d == optional_str(distro),
            forall|i: int|
                0 <= i < items@.len() ==> (#[trigger] items@[i])@.shown !is Name ==> addressable(
                    items@[i].attr@,
                    optional_str(distro),
                ),
            links@.dom() == reasons(all.take(i as int)),
            forall|reason: Seq<char>| #[trigger]
                text::views(links.items(reason)) == links_for(all.take(i as int), reason, d),
        decreases items.len() - i,
    {
        let item = &items[i];
        let ghost before = links;
        assert(all[i as int] == item@);
        if let Shown::EvalError(description) = &item.shown {
            let written = write_attr_link(&item.attr, distro);
            links.add(description.as_str(), written);
            proof {
                let key = description@;
                assert(text::views(before.items(key).push(written)) =~= text::views(
                    before.items(key),
                ).push(written@));
            }
        }
        proof {
            lemma_reasons_step(all, i as int);
            assert forall|reason: Seq<char>| #[trigger]
                text::views(links.items(reason)) == links_for(all.take(i + 1), reason, d) by {
                lemma_links_step(all, i as int, reason, d);
                assert(text::views(before.items(reason)) == links_for(
                    all.take(i as int),
                    reason,
                    d,
                ));
            }
        }
        i += 1;
    }
    assert(all.take(i as int) =~= all);
    links
}

/// Writes the lines for all evaluation errors.
fn write_reason_lines(items: &Vec<Listed>, distro: Option<&str>) -> (r: String)
    requires
        forall|i: int|
            0 <= i < items@.len() ==> (#[trigger] items@[i])@.shown !is Name ==> addressable(
                items@[i].attr@,
                optional_str(distro),
            ),
    ensures
        r@ == reason_lines(listed_views(items@), optional_str(distro)),
{
    let ghost all = listed_views(items@);
    let ghost d = optional_str(distro);
    let links = links_by_reason(items, distro);
    let n = links.len();
    let ghost write = |reason: Seq<char>| reason_line(reason, links_for(all, reason, d));
    let ghost parts = links.keys().map_values(write);
    let mut r = String::new();
    let mut i: usize = 0;
    while i < n
        invariant
            i <= n,
            n == links.keys().len(),
            parts.len() == n,
            write == (|reason: Seq<char>| reason_line(reason, links_for(all, reason, d))),
            parts == links.keys().map_values(write),
            forall|reason: Seq<char>| #[trigger]
                text::views(links.items(reason)) == links_for(all, reason, d),
            r@ == text::concat(parts.take(i as int)),
        decreases n - i,
    {
        let (reason, attrs) = links.entry(i);
        assert(text::views(links.items(reason@)) == links_for(all, reason@, d));
        assert(links.items(reason@) == attrs@);
        let mut line = "  | ".to_owned();
        line.append(reason);
        line.append(" | ");
        line.append(&join(attrs, ", "));
        line.append(" |\n");
        assert(line@ == parts[i as int]);
        r.append(&line);
        assert(parts.take(i + 1).drop_last() =~= parts.take(i as int));
        i += 1;
    }
    assert(parts.take(i as int) =~= parts);
    r
}

/// Writes a link to Hydra's own comparison of the two evaluations.
fn write_comparison_link(old_id: u64, new_id: u64) -> (r: String)
    ensures
        r@ == comparison_link(old_id, new_id),
{
    let mut r = "[Hydra comparison](https://hydra.iid.ciirc.cvut.cz/eval/".to_owned();
    r.append(&decimal_text(new_id));
    r.append("?compare=");
    r.append(&decimal_text(old_id));
    r.append(")\n");
    r
}

/// Writes the section for the attributes with a change.
pub fn write_group(
    change: CiChange,
    items: &Vec<Listed>,
    distro: Option<&str>,
    old_id: u64,
    new_id: u64,
) -> (r: String)
    requires
        links_are_clear(change, listed_views(items@), optional_str(distro)),
    ensures
        r@ == group_text(change, listed_views(items@), optional_str(distro), old_id, new_id),
{
    let ghost all = listed_views(items@);
    let ghost d = optional_str(distro);
    let mut body = if change.summary() || change.list_attrs() {
        write_listing(change, items, distro)
    } else {
        write_comparison_link(old_id, new_id)
    };
    if change.summary() {
        proof {
            assert forall|i: int|
                0 <= i < items@.len() && (#[trigger] items@[i])@.shown !is Name implies addressable(
                items@[i].attr@,
                d,
            ) by {
                assert(all[i] == items@[i]@);
                assert(refers_to_page(change, all[i]) <==> all[i].shown !is Name);
            }
        }
        body.append(&write_reason_lines(items, distro));
    }
    let mut r = "<details>\n<summary>".to_owned();
    r.append(change.label());
    r.append(": ");
    r.append(&decimal_text(items.len() as u64));
    r.append("</summary>\n\n\n");
    r.append(&body);
    r.append("</details>\n\n");
    r
}

} // verus!
