//! What an evaluation comes to, and the report on the difference between two evaluations.

use crate::analyzer;
use crate::analyzer::EvalErrorAnalyzer;
use crate::eval::{EvalDataError, HydraEval};
use crate::group;
use crate::group::{
    attr_url, is_addressable, write_attr_link, write_group, write_labelled_link, Listed,
    ListedModel, Shown, ShownModel,
};
use crate::status;
use crate::status::{CiChange, HydraAttrStatus, Standing, StatusModel};
use crate::table;
use crate::table::Table;
use crate::text;
use crate::text::chars_of;
use vstd::prelude::*;
use vstd::string::*;

verus! {

/// The characters that mean something in Markdown.
pub open spec fn is_markdown_special(c: char) -> bool {
    c == '\\' || c == '`' || c == '*' || c == '_' || c == '{' || c == '}' || c == '[' || c == ']'
        || c == '(' || c == ')' || c == '#' || c == '+' || c == '-' || c == '.' || c == '!'
}

/// A text with a backslash before every character that means something in Markdown.
pub open spec fn escaped(s: Seq<char>) -> Seq<char>
    decreases s.len(),
{
    if s.len() == 0 {
        s
    } else {
        escaped(s.drop_last()) + (if is_markdown_special(s.last()) {
            seq!['\\', s.last()]
        } else {
            seq![s.last()]
        })
    }
}

/// Puts a backslash before every character that means something in Markdown.
pub fn _escape_markdown(input: &str) -> (r: String)
    ensures
        r@ == escaped(input@),
{
    let chars = chars_of(input);
    let mut r = String::new();
    let mut i: usize = 0;
    while i < chars.len()
        invariant
            i <= chars@.len(),
            chars@ == input@,
            r@ == escaped(input@.take(i as int)),
        decreases chars.len() - i,
    {
        let c = chars[i];
        let special = c == '\\' || c == '`' || c == '*' || c == '_' || c == '{' || c == '}' || c == '['
            || c == ']' || c == '(' || c == ')' || c == '#' || c == '+' || c == '-' || c == '.' || c
            == '!';
        if special {
            r.push('\\');
        }
        r.push(c);
        assert(input@.take(i + 1).drop_last() =~= input@.take(i as int));
        assert(r@ =~= escaped(input@.take(i + 1)));
        i += 1;
    }
    assert(input@.take(i as int) =~= input@);
    r
}

/// An attribute and its state in an evaluation, if it is in it.
pub struct AttrInfo<'a> {
    pub attr: String,
    pub status: Option<HydraAttrStatus<'a>>,
}

/// An optional state, as its content.
pub open spec fn optional_status(status: Option<HydraAttrStatus>) -> Option<StatusModel> {
    match status {
        Some(status) => Some(status@),
        None => None,
    }
}

impl<'a> AttrInfo<'a> {
    /// The address of the page of the attribute in the ROS index.
    pub fn ros_index_url(&self, eval_distro: Option<&str>) -> (url: Option<String>)
        requires
            group::addressable(self.attr@, group::optional_str(eval_distro)),
        ensures
            match url {
                Some(url) => group::attr_page(self.attr@, group::optional_str(eval_distro)) == Some(
                    url@,
                ),
                None => group::attr_page(self.attr@, group::optional_str(eval_distro)) is None,
            },
    {
        attr_url(&self.attr, eval_distro)
    }

    /// A link with the given label to the page of the attribute, or nothing.
    pub fn ros_index_link(&self, text: &str, eval_distro: Option<&str>) -> (r: String)
        requires
            group::addressable(self.attr@, group::optional_str(eval_distro)),
        ensures
            r@ == group::labelled_link(text@, self.attr@, group::optional_str(eval_distro)),
    {
        write_labelled_link(text, &self.attr, eval_distro)
    }

    /// The attribute, as a link to its page if it has one.
    pub fn markdown_link(&self, eval_distro: Option<&str>) -> (r: String)
        requires
            group::addressable(self.attr@, group::optional_str(eval_distro)),
        ensures
            r@ == group::attr_link(self.attr@, group::optional_str(eval_distro)),
    {
        write_attr_link(&self.attr, eval_distro)
    }
}

/// The description of an evaluation error by its reason.
pub open spec fn description(reason: Option<Seq<char>>) -> Seq<char> {
    match reason {
        Some(reason) => "``` "@ + reason + " ```"@,
        None => "Unrecognized eval error"@,
    }
}

/// Describes an evaluation error by its reason.
pub fn describe(reason: Option<String>) -> (r: String)
    ensures
        r@ == description(analyzer::optional(reason)),
{
    match reason {
        Some(reason) => {
            let mut r = "``` ".to_owned();
            r.append(&reason);
            r.append(" ```");
            r
        },
        None => "Unrecognized eval error".to_owned(),
    }
}

/// What is shown of an attribute with a state.
pub open spec fn shown_for(status: Option<StatusModel>) -> ShownModel {
    match status {
        Some(StatusModel::Build(info, build)) => ShownModel::Build(build.page(), info),
        Some(StatusModel::EvalError(error)) => ShownModel::EvalError(
            description(analyzer::reason_of(error)),
        ),
        Some(StatusModel::Unbuilt) | None => ShownModel::Name,
    }
}

/// What is shown of an attribute.
fn show(info: &AttrInfo, analyzer: &EvalErrorAnalyzer) -> (listed: Listed)
    ensures
        listed@ == (ListedModel {
            attr: info.attr@,
            shown: shown_for(optional_status(info.status)),
        }),
{
    let shown = match &info.status {
        Some(HydraAttrStatus::Build(b)) => Shown::Build(b.hydra.url(), b.eval),
        Some(HydraAttrStatus::EvalError(error)) => Shown::EvalError(
            describe(analyzer.analyze(error)),
        ),
        _ => Shown::Name,
    };
    Listed { attr: info.attr.clone(), shown }
}

/// What an evaluation comes to: the state of each of its attributes.
pub struct HydraEvalSummary<'a> {
    pub eval_id: u64,
    pub distro: Option<&'a str>,
    pub attrs: Table<'a, HydraAttrStatus<'a>>,
}

/// The mathematical content of a [`HydraEvalSummary`].
pub struct SummaryModel {
    pub eval_id: u64,
    pub distro: Option<Seq<char>>,
    pub attrs: Map<Seq<char>, StatusModel>,
}

impl<'a> View for HydraEvalSummary<'a> {
    type V = SummaryModel;

    open spec fn view(&self) -> SummaryModel {
        SummaryModel {
            eval_id: self.eval_id,
            distro: group::optional_str(self.distro),
            attrs: self.attrs@.map_values(|status: HydraAttrStatus<'a>| status@),
        }
    }
}

impl SummaryModel {
    /// The state of an attribute, if the evaluation has it.
    pub open spec fn status(self, attr: Seq<char>) -> Option<StatusModel> {
        if self.attrs.contains_key(attr) {
            Some(self.attrs[attr])
        } else {
            None
        }
    }

    /// How an attribute stands, if the evaluation has it.
    pub open spec fn standing(self, attr: Seq<char>) -> Option<Standing> {
        if self.attrs.contains_key(attr) {
            Some(self.attrs[attr].standing())
        } else {
            None
        }
    }

    /// The build of an attribute was aborted.
    pub open spec fn aborted(self, attr: Seq<char>) -> bool {
        self.attrs.contains_key(attr) && self.attrs[attr].is_aborted()
    }

    /// Some build was aborted.
    pub open spec fn any_aborted(self) -> bool {
        exists|attr: Seq<char>| self.aborted(attr)
    }
}

/// What happened to an attribute from an old evaluation to a new one.
pub open spec fn change_in(old_eval: SummaryModel, new_eval: SummaryModel, attr: Seq<char>) -> Option<
    CiChange,
> {
    status::change_of(old_eval.standing(attr), new_eval.standing(attr))
}

/// The attributes with a change.
pub open spec fn changed(old_eval: SummaryModel, new_eval: SummaryModel, change: CiChange) -> Set<
    Seq<char>,
> {
    Set::new(|attr: Seq<char>| change_in(old_eval, new_eval, attr) == Some(change))
}

/// What is shown of an attribute in the report.
pub open spec fn listed_in(new_eval: SummaryModel, attr: Seq<char>) -> ListedModel {
    ListedModel { attr, shown: shown_for(new_eval.status(attr)) }
}

/// The attributes with a change, in order, with what is shown of them.
pub open spec fn group_items(
    old_eval: SummaryModel,
    new_eval: SummaryModel,
    change: CiChange,
) -> Seq<ListedModel> {
    table::sorted_keys(changed(old_eval, new_eval, change)).map_values(
        |attr: Seq<char>| listed_in(new_eval, attr),
    )
}

/// The section for a change; nothing if no attribute has it.
pub open spec fn section(old_eval: SummaryModel, new_eval: SummaryModel, change: CiChange) -> Seq<
    char,
> {
    let items = group_items(old_eval, new_eval, change);
    if items.len() == 0 {
        Seq::empty()
    } else {
        group::group_text(change, items, old_eval.distro, old_eval.eval_id, new_eval.eval_id)
    }
}

/// The report on the difference between two evaluations.
pub open spec fn report(old_eval: SummaryModel, new_eval: SummaryModel) -> Seq<char> {
    "### Hydra build and evaluation statistics\n"@ + text::concat(
        CiChange::in_order().map_values(|change: CiChange| section(old_eval, new_eval, change)),
    )
}

/// The report links to the page of an attribute without it being clear which package that is.
pub open spec fn unclear(old_eval: SummaryModel, new_eval: SummaryModel, attr: Seq<char>) -> bool {
    &&& change_in(old_eval, new_eval, attr) matches Some(change)
    &&& group::refers_to_page(change, listed_in(new_eval, attr))
    &&& !group::addressable(attr, old_eval.distro)
}

/// Why two evaluations cannot be compared.
pub enum CompareError {
    /// A build was aborted; the message says which.
    Aborted(String),
    /// The report would have to link to an attribute that names no package.
    NoPackage(String),
}

/// The message on an aborted build of an evaluation.
pub open spec fn tells_abortion(eval: SummaryModel, message: Seq<char>) -> bool {
    exists|attr: Seq<char>| #[trigger]
        eval.aborted(attr) && message == status::abortion_notice(attr, eval.attrs[attr]->Build_1)
}

/// An attribute of two evaluations with its change and its state in the new one.
pub struct Changed<'a> {
    pub change: CiChange,
    pub info: AttrInfo<'a>,
}

/// The attributes of two evaluations.
pub open spec fn all_attrs(old_eval: SummaryModel, new_eval: SummaryModel) -> Set<Seq<char>> {
    old_eval.attrs.dom().union(new_eval.attrs.dom())
}

/// An entry tells what happened to an attribute.
pub open spec fn tells_change(
    entry: Changed,
    old_eval: SummaryModel,
    new_eval: SummaryModel,
    attr: Seq<char>,
) -> bool {
    &&& entry.info.attr@ == attr
    &&& change_in(old_eval, new_eval, attr) == Some(entry.change)
    &&& optional_status(entry.info.status) == new_eval.status(attr)
}

impl<'a> HydraEvalSummary<'a> {
    /// The message on the first aborted build.
    fn first_aborted(&self) -> (message: Option<String>)
        ensures
            message is Some <==> self@.any_aborted(),
            message matches Some(message) ==> tells_abortion(self@, message@),
    {
        let n = self.attrs.len();
        let mut i: usize = 0;
        while i < n
            invariant
                i <= n,
                n == self.attrs.keys().len(),
                self.attrs.keys().to_set() == self.attrs@.dom(),
                forall|j: int| 0 <= j < i ==> !self@.aborted(#[trigger] self.attrs.keys()[j]),
            decreases n - i,
        {
            let (attr, status) = self.attrs.entry(i);
            assert(self@.attrs[attr@] == status@);
            if let Some(message) = status.panic_if_aborted(attr) {
                assert(self@.aborted(attr@));
                return Some(message);
            }
            i += 1;
        }
        proof {
            if self@.any_aborted() {
                let attr = choose|attr: Seq<char>| self@.aborted(attr);
                assert(self.attrs@.dom().contains(attr));
                assert(self.attrs.keys().contains(attr));
            }
        }
        None
    }

    /// The names of the attributes of this evaluation and another.
    fn names_with(&self, other: &HydraEvalSummary<'a>) -> (names: Table<'a, ()>)
        ensures
            names@.dom() == all_attrs(self@, other@),
    {
        let mut names: Table<'a, ()> = Table::new();
        let n = self.attrs.len();
        let mut i: usize = 0;
        assert(names@.dom() =~= self.attrs.keys().take(0).to_set());
        while i < n
            invariant
                i <= n,
                n == self.attrs.keys().len(),
                names@.dom() == self.attrs.keys().take(i as int).to_set(),
            decreases n - i,
        {
            let (attr, _) = self.attrs.entry(i);
            names.insert(attr, ());
            proof {
                table::lemma_take_set(self.attrs.keys(), i as int);
                assert(names@.dom() =~= self.attrs.keys().take(i + 1).to_set());
            }
            i += 1;
        }
        assert(self.attrs.keys().take(i as int) =~= self.attrs.keys());
        let ghost own = names@.dom();
        assert(self@.attrs.dom() =~= self.attrs@.dom());
        let m = other.attrs.len();
        let mut j: usize = 0;
        assert(names@.dom() =~= own.union(other.attrs.keys().take(0).to_set()));
        while j < m
            invariant
                j <= m,
                m == other.attrs.keys().len(),
                names@.dom() == own.union(other.attrs.keys().take(j as int).to_set()),
            decreases m - j,
        {
            let (attr, _) = other.attrs.entry(j);
            names.insert(attr, ());
            proof {
                table::lemma_take_set(other.attrs.keys(), j as int);
                assert(names@.dom() =~= own.union(other.attrs.keys().take(j + 1).to_set()));
            }
            j += 1;
        }
        assert(other.attrs.keys().take(j as int) =~= other.attrs.keys());
        assert(other@.attrs.dom() =~= other.attrs@.dom());
        names
    }

    /// What happened to each attribute, in the order of the attributes.
    pub fn changes(&self, other: &HydraEvalSummary<'a>) -> (changes: Vec<Changed<'a>>)
        ensures
            ({
                let names = table::sorted_keys(all_attrs(self@, other@));
                &&& changes@.len() == names.len()
                &&& forall|i: int|
                    0 <= i < names.len() ==> tells_change(
                        #[trigger] changes@[i],
                        self@,
                        other@,
                        names[i],
                    )
                &&& table::strictly_sorted(names)
                &&& names.to_set() == all_attrs(self@, other@)
            }),
    {
        let names = self.names_with(other);
        let n = names.len();
        let mut changes: Vec<Changed<'a>> = Vec::new();
        let mut i: usize = 0;
        while i < n
            invariant
                i <= n,
                n == names.keys().len(),
                names@.dom() == all_attrs(self@, other@),
                changes@.len() == i,
                forall|j: int|
                    0 <= j < i ==> tells_change(
                        #[trigger] changes@[j],
                        self@,
                        other@,
                        names.keys()[j],
                    ),
            decreases n - i,
        {
            let (attr, _) = names.entry(i);
            let old_status = self.attrs.get(attr);
            let new_status = other.attrs.get(attr);
            assert(all_attrs(self@, other@).contains(attr@));
            let change = match (old_status, new_status) {
                (Some(old_status), Some(new_status)) => old_status.compare(new_status),
                (Some(_), None) => CiChange::Removed,
                (None, Some(new_status)) => new_status.ci_chage_as_new(),
                (None, None) => CiChange::Removed,
            };
            let status = match new_status {
                Some(new_status) => Some(new_status.clone()),
                None => None,
            };
            let entry = Changed { change, info: AttrInfo { attr: attr.to_owned(), status } };
            assert(tells_change(entry, self@, other@, attr@));
            changes.push(entry);
            i += 1;
        }
        changes
    }
}

/// A sorted listing stays sorted when elements are left out.
proof fn lemma_filter_sorted(keys: Seq<Seq<char>>, keep: spec_fn(Seq<char>) -> bool)
    requires
        table::strictly_sorted(keys),
    ensures
        table::strictly_sorted(keys.filter(keep)),
        forall|k: Seq<char>| #[trigger]
            keys.filter(keep).contains(k) <==> keys.contains(k) && keep(k),
    decreases keys.len(),
{
    reveal(Seq::filter);
    if keys.len() > 0 {
        let rest = keys.drop_last();
        lemma_filter_sorted(rest, keep);
        let before = rest.filter(keep);
        let after = keys.filter(keep);
        assert forall|k: Seq<char>| #[trigger] after.contains(k) <==> keys.contains(k) && keep(
            k,
        ) by {
            assert(before.contains(k) <==> rest.contains(k) && keep(k));
            assert(keys.contains(k) <==> rest.contains(k) || k == keys.last()) by {
                if rest.contains(k) {
                    let i = choose|i: int| 0 <= i < rest.len() && rest[i] == k;
                    assert(keys[i] == k);
                }
                if keys.contains(k) && k != keys.last() {
                    let i = choose|i: int| 0 <= i < keys.len() && keys[i] == k;
                    assert(rest[i] == k);
                }
                assert(keys[keys.len() - 1] == keys.last());
            }
            if keep(keys.last()) {
                assert(after =~= before.push(keys.last()));
                if before.contains(k) {
                    let i = choose|i: int| 0 <= i < before.len() && before[i] == k;
                    assert(after[i] == k);
                }
                if after.contains(k) && k != keys.last() {
                    let i = choose|i: int| 0 <= i < after.len() && after[i] == k;
                    assert(before[i] == k);
                }
                assert(after[after.len() - 1] == keys.last());
            }
        }
        if keep(keys.last()) {
            assert(after =~= before.push(keys.last()));
            assert forall|i: int, j: int| 0 <= i < j < after.len() implies text::text_before(
                #[trigger] after[i],
                #[trigger] after[j],
            ) by {
                if j < before.len() {
                    assert(text::text_before(before[i], before[j]));
                } else {
                    assert(before.contains(before[i]));
                    assert(rest.contains(before[i]));
                    let m = choose|m: int| 0 <= m < rest.len() && rest[m] == before[i];
                    assert(text::text_before(keys[m], keys[keys.len() - 1]));
                }
            }
        }
    }
}

/// The attributes with a change are those of all attributes that have it, in the same order.
proof fn lemma_group_is_filter(old_eval: SummaryModel, new_eval: SummaryModel, change: CiChange)
    requires
        table::strictly_sorted(table::sorted_keys(all_attrs(old_eval, new_eval))),
        table::sorted_keys(all_attrs(old_eval, new_eval)).to_set() == all_attrs(old_eval, new_eval),
    ensures
        table::sorted_keys(changed(old_eval, new_eval, change)) == table::sorted_keys(
            all_attrs(old_eval, new_eval),
        ).filter(|attr: Seq<char>| change_in(old_eval, new_eval, attr) == Some(change)),
{
    let names = table::sorted_keys(all_attrs(old_eval, new_eval));
    let keep = |attr: Seq<char>| change_in(old_eval, new_eval, attr) == Some(change);
    lemma_filter_sorted(names, keep);
    let kept = names.filter(keep);
    assert forall|attr: Seq<char>| kept.to_set().contains(attr) == changed(
        old_eval,
        new_eval,
        change,
    ).contains(attr) by {
        assert(kept.contains(attr) <==> names.contains(attr) && keep(attr));
        assert(names.to_set().contains(attr) == names.contains(attr));
    }
    assert(kept.to_set() =~= changed(old_eval, new_eval, change));
    table::lemma_sorted_keys(kept);
}

/// The attributes with a change, with what is shown of them.
fn select<'a>(
    changes: &Vec<Changed<'a>>,
    change: CiChange,
    analyzer: &EvalErrorAnalyzer,
    Ghost(old_eval): Ghost<SummaryModel>,
    Ghost(new_eval): Ghost<SummaryModel>,
) -> (items: Vec<Listed>)
    requires
        ({
            let names = table::sorted_keys(all_attrs(old_eval, new_eval));
            &&& changes@.len() == names.len()
            &&& forall|i: int|
                0 <= i < names.len() ==> tells_change(
                    #[trigger] changes@[i],
                    old_eval,
                    new_eval,
                    names[i],
                )
            &&& table::strictly_sorted(names)
            &&& names.to_set() == all_attrs(old_eval, new_eval)
        }),
    ensures
        group::listed_views(items@) == group_items(old_eval, new_eval, change),
{
    let ghost names = table::sorted_keys(all_attrs(old_eval, new_eval));
    let ghost keep = |attr: Seq<char>| change_in(old_eval, new_eval, attr) == Some(change);
    let ghost show_attr = |attr: Seq<char>| listed_in(new_eval, attr);
    let mut items: Vec<Listed> = Vec::new();
    let mut i: usize = 0;
    proof {
        reveal(Seq::filter);
        assert(group::listed_views(items@) =~= names.take(0).filter(keep).map_values(show_attr));
    }
    while i < changes.len()
        invariant
            i <= changes@.len(),
            changes@.len() == names.len(),
            forall|i: int|
                0 <= i < names.len() ==> tells_change(
                    #[trigger] changes@[i],
                    old_eval,
                    new_eval,
                    names[i],
                ),
            keep == (|attr: Seq<char>| change_in(old_eval, new_eval, attr) == Some(change)),
            show_attr == (|attr: Seq<char>| listed_in(new_eval, attr)),
            group::listed_views(items@) == names.take(i as int).filter(keep).map_values(show_attr),
        decreases changes.len() - i,
    {
        let entry = &changes[i];
        assert(tells_change(*entry, old_eval, new_eval, names[i as int]));
        let ghost before = items@;
        let ghost kept = names.take(i as int).filter(keep);
        if entry.change == change {
            let item = show(&entry.info, analyzer);
            assert(item@ == show_attr(names[i as int]));
            items.push(item);
            assert(group::listed_views(items@) =~= group::listed_views(before).push(item@));
        }
        proof {
            reveal(Seq::filter);
            assert(names.take(i + 1).drop_last() =~= names.take(i as int));
            assert(names.take(i + 1).last() == names[i as int]);
            assert(kept.push(names[i as int]).map_values(show_attr) =~= kept.map_values(
                show_attr,
            ).push(show_attr(names[i as int])));
        }
        i += 1;
    }
    proof {
        assert(names.take(i as int) =~= names);
        lemma_group_is_filter(old_eval, new_eval, change);
    }
    items
}

/// The first of the listed attributes that names no package although it has to.
fn find_unclear(change: CiChange, items: &Vec<Listed>, distro: Option<&str>) -> (unclear: Option<
    String,
>)
    ensures
        match unclear {
            Some(attr) => exists|i: int|
                0 <= i < items@.len() && (#[trigger] items@[i]).attr@ == attr@
                    && group::refers_to_page(change, items@[i]@) && !group::addressable(
                    attr@,
                    group::optional_str(distro),
                ),
            None => group::links_are_clear(
                change,
                group::listed_views(items@),
                group::optional_str(distro),
            ),
        },
{
    let refers = change.list_attrs() || change.summary();
    let mut i: usize = 0;
    while i < items.len()
        invariant
            i <= items@.len(),
            refers == (change.lists_attributes() || change.sums_up_reasons()),
            forall|j: int|
                0 <= j < i ==> group::refers_to_page(change, (#[trigger] items@[j])@)
                    ==> group::addressable(items@[j].attr@, group::optional_str(distro)),
        decreases items.len() - i,
    {
        let item = &items[i];
        let named = match &item.shown {
            Shown::Name => true,
            _ => false,
        };
        if refers && !named && !is_addressable(&item.attr, distro) {
            assert(items@[i as int].attr@ == item.attr@);
            return Some(item.attr.clone());
        }
        i += 1;
    }
    assert forall|j: int|
        0 <= j < items@.len() && group::refers_to_page(
            change,
            #[trigger] group::listed_views(items@)[j],
        ) implies group::addressable(
        group::listed_views(items@)[j].attr,
        group::optional_str(distro),
    ) by {
        assert(group::listed_views(items@)[j] == items@[j]@);
    }
    None
}

impl<'a> HydraEvalSummary<'a> {
    /// Reports on the difference between this evaluation and a newer one.
    pub fn compare(
        &self,
        other: &HydraEvalSummary<'a>,
        analyzer: &EvalErrorAnalyzer,
    ) -> (r: Result<String, CompareError>)
        ensures
            r is Ok <==> !self@.any_aborted() && !other@.any_aborted() && forall|attr: Seq<char>|
                !unclear(self@, other@, attr),
            match r {
                Ok(text) => text@ == report(self@, other@),
                Err(CompareError::Aborted(message)) => if self@.any_aborted() {
                    tells_abortion(self@, message@)
                } else {
                    tells_abortion(other@, message@)
                },
                Err(CompareError::NoPackage(attr)) => !self@.any_aborted() && !other@.any_aborted()
                    && unclear(self@, other@, attr@),
            },
    {
        if let Some(message) = self.first_aborted() {
            return Err(CompareError::Aborted(message));
        }
        if let Some(message) = other.first_aborted() {
            return Err(CompareError::Aborted(message));
        }
        let changes = self.changes(other);
        let all = CiChange::all();
        let mut text = "### Hydra build and evaluation statistics\n".to_owned();
        let ghost title = text@;
        let ghost sections = all@.map_values(|change: CiChange| section(self@, other@, change));
        let mut i: usize = 0;
        assert(title + text::concat(sections.take(0)) =~= title);
        while i < all.len()
            invariant
                i <= all@.len(),
                !self@.any_aborted(),
                !other@.any_aborted(),
                sections == all@.map_values(|change: CiChange| section(self@, other@, change)),
                changes@.len() == table::sorted_keys(all_attrs(self@, other@)).len(),
                forall|i: int|
                    0 <= i < changes@.len() ==> tells_change(
                        #[trigger] changes@[i],
                        self@,
                        other@,
                        table::sorted_keys(all_attrs(self@, other@))[i],
                    ),
                table::strictly_sorted(table::sorted_keys(all_attrs(self@, other@))),
                table::sorted_keys(all_attrs(self@, other@)).to_set() == all_attrs(self@, other@),
                forall|j: int|
                    0 <= j < i ==> group::links_are_clear(
                        #[trigger] all@[j],
                        group_items(self@, other@, all@[j]),
                        self@.distro,
                    ),
                text@ == title + text::concat(sections.take(i as int)),
            decreases all.len() - i,
        {
            let change = all[i];
            let items = select(&changes, change, analyzer, Ghost(self@), Ghost(other@));
            if let Some(attr) = find_unclear(change, &items, self.distro) {
                proof {
                    let j = choose|j: int|
                        0 <= j < items@.len() && (#[trigger] items@[j]).attr@ == attr@
                            && group::refers_to_page(change, items@[j]@) && !group::addressable(
                            attr@,
                            self@.distro,
                        );
                    lemma_group_is_filter(self@, other@, change);
                    lemma_group_member(self@, other@, change, j);
                    assert(group::listed_views(items@)[j] == items@[j]@);
                    assert(unclear(self@, other@, attr@));
                }
                return Err(CompareError::NoPackage(attr));
            }
            if items.len() > 0 {
                let written = write_group(
                    change,
                    &items,
                    self.distro,
                    self.eval_id,
                    other.eval_id,
                );
                text.append(&written);
            }
            proof {
                assert(group::listed_views(items@).len() == items@.len());
                assert(sections[i as int] == section(self@, other@, change));
                assert(sections.take(i + 1).drop_last() =~= sections.take(i as int));
                assert(text@ =~= title + text::concat(sections.take(i + 1)));
            }
            i += 1;
        }
        proof {
            assert(sections.take(i as int) =~= sections);
            assert forall|attr: Seq<char>| !unclear(self@, other@, attr) by {
                if unclear(self@, other@, attr) {
                    let change = change_in(self@, other@, attr)->0;
                    status::law_every_change_reported_once(change);
                    let j = choose|j: int| 0 <= j < all@.len() && all@[j] == change;
                    assert(all@[j] == change);
                    lemma_group_is_filter(self@, other@, change);
                    let k = lemma_group_index(self@, other@, change, attr);
                    assert(group_items(self@, other@, change)[k] == listed_in(other@, attr));
                }
            }
        }
        Ok(text)
    }
}

/// What stands in a section has the change of the section.
proof fn lemma_group_member(
    old_eval: SummaryModel,
    new_eval: SummaryModel,
    change: CiChange,
    i: int,
)
    requires
        table::strictly_sorted(table::sorted_keys(all_attrs(old_eval, new_eval))),
        table::sorted_keys(all_attrs(old_eval, new_eval)).to_set() == all_attrs(old_eval, new_eval),
        0 <= i < group_items(old_eval, new_eval, change).len(),
    ensures
        change_in(old_eval, new_eval, group_items(old_eval, new_eval, change)[i].attr) == Some(
            change,
        ),
        group_items(old_eval, new_eval, change)[i] == listed_in(
            new_eval,
            group_items(old_eval, new_eval, change)[i].attr,
        ),
{
    let names = table::sorted_keys(all_attrs(old_eval, new_eval));
    let keep = |attr: Seq<char>| change_in(old_eval, new_eval, attr) == Some(change);
    lemma_group_is_filter(old_eval, new_eval, change);
    lemma_filter_sorted(names, keep);
    let attr = names.filter(keep)[i];
    assert(names.filter(keep).contains(attr));
}

/// An attribute stands in the section of its change.
proof fn lemma_group_index(
    old_eval: SummaryModel,
    new_eval: SummaryModel,
    change: CiChange,
    attr: Seq<char>,
) -> (i: int)
    requires
        table::strictly_sorted(table::sorted_keys(all_attrs(old_eval, new_eval))),
        table::sorted_keys(all_attrs(old_eval, new_eval)).to_set() == all_attrs(old_eval, new_eval),
        change_in(old_eval, new_eval, attr) == Some(change),
    ensures
        0 <= i < group_items(old_eval, new_eval, change).len(),
        group_items(old_eval, new_eval, change)[i] == listed_in(new_eval, attr),
{
    let names = table::sorted_keys(all_attrs(old_eval, new_eval));
    let keep = |attr: Seq<char>| change_in(old_eval, new_eval, attr) == Some(change);
    lemma_group_is_filter(old_eval, new_eval, change);
    lemma_filter_sorted(names, keep);
    assert(names.to_set().contains(attr));
    assert(names.contains(attr));
    assert(names.filter(keep).contains(attr));
    choose|i: int| 0 <= i < names.filter(keep).len() && names.filter(keep)[i] == attr
}

/// Why two evaluations as fetched cannot be compared.
pub enum EvalCompareError {
    /// The old evaluation cannot be summed up.
    OldData(EvalDataError),
    /// The new evaluation cannot be summed up.
    NewData(EvalDataError),
    /// What they come to cannot be compared.
    Compare(CompareError),
}

impl HydraEval {
    /// Reports on the difference between this evaluation and a newer one.
    pub fn compare(&self, other: &HydraEval, analyzer: &EvalErrorAnalyzer) -> (r: Result<
        String,
        EvalCompareError,
    >)
        ensures
            ({
                let (old_sum, new_sum) = (self@.summed_up(), other@.summed_up());
                let sound = self@.summary_error() is None && other@.summary_error() is None;
                &&& r is Ok <==> sound && !old_sum.any_aborted() && !new_sum.any_aborted()
                    && forall|attr: Seq<char>| !unclear(old_sum, new_sum, attr)
                &&& match r {
                    Ok(text) => text@ == report(old_sum, new_sum),
                    Err(EvalCompareError::OldData(error)) => self@.summary_error() == Some(error),
                    Err(EvalCompareError::NewData(error)) => self@.summary_error() is None
                        && other@.summary_error() == Some(error),
                    Err(EvalCompareError::Compare(CompareError::Aborted(message))) => sound && (
                    if old_sum.any_aborted() {
                        tells_abortion(old_sum, message@)
                    } else {
                        tells_abortion(new_sum, message@)
                    }),
                    Err(EvalCompareError::Compare(CompareError::NoPackage(attr))) => sound
                        && !old_sum.any_aborted() && !new_sum.any_aborted() && unclear(
                        old_sum,
                        new_sum,
                        attr@,
                    ),
                }
            }),
    {
        let old_sum = match self.summary() {
            Ok(old_sum) => old_sum,
            Err(error) => {
                return Err(EvalCompareError::OldData(error));
            },
        };
        let new_sum = match other.summary() {
            Ok(new_sum) => new_sum,
            Err(error) => {
                return Err(EvalCompareError::NewData(error));
            },
        };
        match old_sum.compare(&new_sum, analyzer) {
            Ok(text) => Ok(text),
            Err(error) => Err(EvalCompareError::Compare(error)),
        }
    }
}

} // verus!
