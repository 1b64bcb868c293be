//! What holds of what is read from JSON documents.

use crate::inputs;
use crate::jobset;
use crate::jobset::{Finding, PrStepModel, PullRequestModel};
use crate::json;
use crate::json::{JsonModel, NumberModel};
use crate::laws;
use crate::nix;
use crate::text;
use vstd::prelude::*;
use vstd::string::*;

verus! {

// ---- fields ----

/// The first field of an object with a name holds a document.
pub open spec fn holds(json: JsonModel, key: Seq<char>, value: JsonModel) -> bool {
    &&& json matches JsonModel::Object(fields)
    &&& exists|i: int| #[trigger] is_first_field(fields, key, value, i)
}

/// The field at a place has a name and holds a document, and no earlier field has the name.
pub open spec fn is_first_field(
    fields: Seq<(Seq<char>, JsonModel)>,
    key: Seq<char>,
    value: JsonModel,
    i: int,
) -> bool {
    &&& 0 <= i < fields.len()
    &&& fields[i] == (key, value)
    &&& forall|j: int| 0 <= j < i ==> (#[trigger] fields[j]).0 != key
}

proof fn lemma_first_field(fields: Seq<(Seq<char>, JsonModel)>, key: Seq<char>, value: JsonModel)
    ensures
        json::first_field(fields, key) == Some(value) <==> exists|i: int| #[trigger]
            is_first_field(fields, key, value, i),
    decreases fields.len(),
{
    if fields.len() > 0 {
        let rest = fields.skip(1);
        lemma_first_field(rest, key, value);
        if fields[0].0 == key {
            if fields[0].1 == value {
                assert(is_first_field(fields, key, value, 0));
            }
            if exists|i: int| #[trigger] is_first_field(fields, key, value, i) {
                let i = choose|i: int| #[trigger] is_first_field(fields, key, value, i);
                assert(i == 0);
            }
        } else {
            if exists|i: int| #[trigger] is_first_field(rest, key, value, i) {
                let i = choose|i: int| #[trigger] is_first_field(rest, key, value, i);
                assert forall|j: int| 0 <= j < i + 1 implies (#[trigger] fields[j]).0 != key by {
                    if j > 0 {
                        assert(rest[j - 1].0 != key);
                    }
                }
                assert(is_first_field(fields, key, value, i + 1));
            }
            if exists|i: int| #[trigger] is_first_field(fields, key, value, i) {
                let i = choose|i: int| #[trigger] is_first_field(fields, key, value, i);
                assert forall|j: int| 0 <= j < i - 1 implies (#[trigger] rest[j]).0 != key by {
                    assert(fields[j + 1].0 != key);
                }
                assert(is_first_field(rest, key, value, i - 1));
            }
        }
    }
}

/// What is looked up is the first field with the name. Without one, or in what is no object,
/// nothing is found, and null stands in for it.
pub proof fn law_field_is_first_of_its_name(json: JsonModel, key: Seq<char>, value: JsonModel)
    ensures
        json.field(key) == Some(value) <==> holds(json, key, value),
        holds(json, key, value) ==> json.at(key) == value,
        json.field(key) is None ==> json.at(key) is Null,
        json !is Object ==> json.field(key) is None,
{
    if let JsonModel::Object(fields) = json {
        lemma_first_field(fields, key, value);
    }
}

/// An integer is read as it is: a signed one if it has no more than 64 bits, an unsigned one if it
/// is not negative.
pub proof fn law_integers_are_read(n: int, json: JsonModel)
    requires
        match json {
            JsonModel::Number(NumberModel::PosInt(u)) => n == u,
            JsonModel::Number(NumberModel::NegInt(i)) => n == i,
            _ => false,
        },
    ensures
        i64::MIN <= n <= i64::MAX ==> json.as_i64() == Some(n as i64),
        n > i64::MAX ==> json.as_i64() is None,
        json matches JsonModel::Number(NumberModel::PosInt(u)) ==> json.as_u64() == Some(u),
        n < 0 ==> json.as_u64() is None,
        json.as_text() is None,
{
}

/// Nothing but a number is read as an integer, and nothing but a text as a text.
pub proof fn law_other_documents_are_no_integers(json: JsonModel, s: Seq<char>)
    ensures
        json !is Number ==> json.as_i64() is None && json.as_u64() is None,
        json matches JsonModel::Number(NumberModel::Float(_)) ==> json.as_i64() is None
            && json.as_u64() is None,
        json.as_text() == Some(s) <==> json == JsonModel::Text(s),
{
}

/// Integers, truth values and null are written as usual.
pub proof fn law_plain_documents_are_written(n: u64, m: i64)
    ensures
        laws::texts::number_of(JsonModel::Number(NumberModel::PosInt(n)).written()) == n,
        m < 0 ==> JsonModel::Number(NumberModel::NegInt(m)).written()[0] == '-'
            && laws::texts::number_of(
            JsonModel::Number(NumberModel::NegInt(m)).written().skip(1),
        ) == -m,
        JsonModel::Null.written() == "null"@,
        JsonModel::Bool(true).written() == "true"@,
        JsonModel::Bool(false).written() == "false"@,
{
    laws::texts::law_decimal_reads_back(n as nat);
    laws::texts::law_signed_decimal(m as int);
}

// ---- paths ----

/// Below a document, a path of two names leads to a text.
pub open spec fn text_below(doc: JsonModel, a: Seq<char>, b: Seq<char>, s: Seq<char>) -> bool {
    exists|x: JsonModel|
        #![trigger holds(doc, a, x)]
        holds(doc, a, x) && holds(x, b, JsonModel::Text(s))
}

/// Below a document, a path of three names leads to a text.
pub open spec fn text_far_below(
    doc: JsonModel,
    a: Seq<char>,
    b: Seq<char>,
    c: Seq<char>,
    s: Seq<char>,
) -> bool {
    exists|x: JsonModel|
        #![trigger holds(doc, a, x)]
        holds(doc, a, x) && text_below(x, b, c, s)
}

/// A field that is not null holds what is looked up.
proof fn lemma_at(doc: JsonModel, key: Seq<char>, value: JsonModel)
    ensures
        holds(doc, key, value) ==> doc.at(key) == value,
        doc.at(key) == value && value !is Null ==> holds(doc, key, value),
{
    law_field_is_first_of_its_name(doc, key, value);
    if doc.at(key) == value && value !is Null {
        assert(doc.field(key) == Some(value));
    }
}

proof fn lemma_text_below(doc: JsonModel, a: Seq<char>, b: Seq<char>, s: Seq<char>)
    ensures
        text_below(doc, a, b, s) <==> doc.at(a).at(b).as_text() == Some(s),
{
    let x = doc.at(a);
    if text_below(doc, a, b, s) {
        let y = choose|y: JsonModel|
            #![trigger holds(doc, a, y)]
            holds(doc, a, y) && holds(y, b, JsonModel::Text(s));
        lemma_at(doc, a, y);
        lemma_at(y, b, JsonModel::Text(s));
    }
    if x.at(b).as_text() == Some(s) {
        lemma_at(x, b, JsonModel::Text(s));
        lemma_at(doc, a, x);
    }
}

pub(crate) proof fn lemma_text_far_below(
    doc: JsonModel,
    a: Seq<char>,
    b: Seq<char>,
    c: Seq<char>,
    s: Seq<char>,
)
    ensures
        text_far_below(doc, a, b, c, s) <==> doc.at(a).at(b).at(c).as_text() == Some(s),
{
    let x = doc.at(a);
    if text_far_below(doc, a, b, c, s) {
        let y = choose|y: JsonModel|
            #![trigger holds(doc, a, y)]
            holds(doc, a, y) && text_below(y, b, c, s);
        lemma_at(doc, a, y);
        lemma_text_below(y, b, c, s);
    }
    if x.at(b).at(c).as_text() == Some(s) {
        lemma_text_below(x, b, c, s);
        lemma_at(doc, a, x);
    }
}

// ---- what an evaluation was made from ----

/// An input is given by these texts.
pub open spec fn input_given(
    doc: JsonModel,
    input: Seq<char>,
    uri: Seq<char>,
    revision: Seq<char>,
) -> bool {
    &&& text_far_below(doc, "jobsetevalinputs"@, input, "uri"@, uri)
    &&& text_far_below(doc, "jobsetevalinputs"@, input, "revision"@, revision)
}

/// The value of an input is this text.
pub open spec fn value_given(doc: JsonModel, input: Seq<char>, value: Seq<char>) -> bool {
    text_far_below(doc, "jobsetevalinputs"@, input, "value"@, value)
}

/// The document of an evaluation that names two repositories and a system can be read, and what is
/// read is what it names: the archives of the revisions, the system, and the distribution and the
/// cross system if it names them.
pub proof fn law_inputs_are_those_named(
    doc: JsonModel,
    hydra_uri: Seq<char>,
    hydra_revision: Seq<char>,
    overlay_uri: Seq<char>,
    overlay_revision: Seq<char>,
    system: Seq<char>,
)
    requires
        input_given(doc, "nix-ros-hydra"@, hydra_uri, hydra_revision),
        input_given(doc, "nix-ros-overlay"@, overlay_uri, overlay_revision),
        value_given(doc, "system"@, system),
    ensures
        inputs::inputs_fault(doc) is None,
        ({
            let read = inputs::inputs_of(doc);
            &&& read.release_nix_tarball_url == hydra_uri + "/archive/"@ + hydra_revision
                + ".tar.gz"@
            &&& read.tarball_url == overlay_uri + "/archive/"@ + overlay_revision + ".tar.gz"@
            &&& read.system == system
            &&& forall|v: Seq<char>|
                read.distro == Some(v) <==> #[trigger] value_given(doc, "distro"@, v)
            &&& forall|v: Seq<char>|
                read.cross_system == Some(v) <==> #[trigger] value_given(doc, "crossSystem"@, v)
        }),
{
    let top = "jobsetevalinputs"@;
    lemma_text_far_below(doc, top, "nix-ros-hydra"@, "uri"@, hydra_uri);
    lemma_text_far_below(doc, top, "nix-ros-hydra"@, "revision"@, hydra_revision);
    lemma_text_far_below(doc, top, "nix-ros-overlay"@, "uri"@, overlay_uri);
    lemma_text_far_below(doc, top, "nix-ros-overlay"@, "revision"@, overlay_revision);
    lemma_text_far_below(doc, top, "system"@, "value"@, system);
    assert forall|v: Seq<char>|
        inputs::inputs_of(doc).distro == Some(v) <==> #[trigger] value_given(doc, "distro"@, v) by {
        lemma_text_far_below(doc, top, "distro"@, "value"@, v);
    }
    assert forall|v: Seq<char>|
        inputs::inputs_of(doc).cross_system == Some(v) <==> #[trigger] value_given(
            doc,
            "crossSystem"@,
            v,
        ) by {
        lemma_text_far_below(doc, top, "crossSystem"@, "value"@, v);
    }
}

/// A document that can be read names two repositories and a system.
pub proof fn law_readable_inputs_are_named(doc: JsonModel)
    requires
        inputs::inputs_fault(doc) is None,
    ensures
        exists|uri: Seq<char>, revision: Seq<char>| #[trigger]
            input_given(doc, "nix-ros-hydra"@, uri, revision),
        exists|uri: Seq<char>, revision: Seq<char>| #[trigger]
            input_given(doc, "nix-ros-overlay"@, uri, revision),
        exists|system: Seq<char>| #[trigger] value_given(doc, "system"@, system),
{
    let top = "jobsetevalinputs"@;
    let hydra = doc.at(top).at("nix-ros-hydra"@);
    let overlay = doc.at(top).at("nix-ros-overlay"@);
    let (a, b) = (hydra.at("uri"@).as_text()->0, hydra.at("revision"@).as_text()->0);
    let (c, d) = (overlay.at("uri"@).as_text()->0, overlay.at("revision"@).as_text()->0);
    let s = doc.at(top).at("system"@).at("value"@).as_text()->0;
    lemma_text_far_below(doc, top, "nix-ros-hydra"@, "uri"@, a);
    lemma_text_far_below(doc, top, "nix-ros-hydra"@, "revision"@, b);
    lemma_text_far_below(doc, top, "nix-ros-overlay"@, "uri"@, c);
    lemma_text_far_below(doc, top, "nix-ros-overlay"@, "revision"@, d);
    lemma_text_far_below(doc, top, "system"@, "value"@, s);
    assert(input_given(doc, "nix-ros-hydra"@, a, b));
    assert(input_given(doc, "nix-ros-overlay"@, c, d));
    assert(value_given(doc, "system"@, s));
}

/// The first builds of an evaluation that are no numbers make it unreadable, wherever they stand;
/// else every build that is listed is fetched, by its number and in its order.
pub proof fn law_every_listed_build_is_fetched(doc: JsonModel, items: Seq<JsonModel>, i: int)
    requires
        holds(doc, "builds"@, JsonModel::Array(items)),
        0 <= i < items.len(),
    ensures
        inputs::builds_fault(doc) is None,
        inputs::id_fault(items) is None ==> {
            &&& inputs::ids_of(doc).len() == items.len()
            &&& items[i] == JsonModel::Number(NumberModel::PosInt(inputs::ids_of(doc)[i]))
        },
        items[i].as_u64() is None ==> inputs::id_fault(items) is Some,
{
    lemma_at(doc, "builds"@, JsonModel::Array(items));
    assert(inputs::builds_in(doc) == Some(items));
    if inputs::id_fault(items) is None || items[i].as_u64() is None {
        lemma_no_id_fault(items, i);
    }
}

proof fn lemma_no_id_fault(items: Seq<JsonModel>, i: int)
    requires
        0 <= i < items.len(),
    ensures
        inputs::id_fault(items) is None ==> items[i].as_u64() is Some,
    decreases items.len(),
{
    if i < items.len() - 1 {
        lemma_no_id_fault(items.drop_last(), i);
    }
}

/// Documents without a list of builds are refused.
pub proof fn law_builds_have_to_be_listed(doc: JsonModel)
    ensures
        inputs::builds_fault(doc) is None <==> exists|items: Seq<JsonModel>| #[trigger]
            holds(doc, "builds"@, JsonModel::Array(items)),
{
    if exists|items: Seq<JsonModel>| #[trigger] holds(doc, "builds"@, JsonModel::Array(items)) {
        let items = choose|items: Seq<JsonModel>| #[trigger]
            holds(doc, "builds"@, JsonModel::Array(items));
        lemma_at(doc, "builds"@, JsonModel::Array(items));
    }
    if let JsonModel::Array(items) = doc.at("builds"@) {
        lemma_at(doc, "builds"@, JsonModel::Array(items));
    }
}

/// The paths of an evaluation and of a build end with their numbers.
pub proof fn law_paths_end_with_numbers(n: u64)
    ensures
        inputs::evaluation_path(n).take(5) == "eval/"@,
        laws::texts::number_of(inputs::evaluation_path(n).skip(5)) == n,
        inputs::path_of_build(n).take(6) == "build/"@,
        laws::texts::number_of(inputs::path_of_build(n).skip(6)) == n,
        text::begins_with(inputs::path_of_build(n), "build/"@),
        !text::begins_with(inputs::evaluation_path(n), "build/"@),
{
    reveal_strlit("eval/");
    reveal_strlit("build/");
    laws::texts::law_decimal_reads_back(n as nat);
    let (a, b) = (inputs::evaluation_path(n), inputs::path_of_build(n));
    assert(a.take(5) =~= "eval/"@);
    assert(a.skip(5) =~= text::decimal(n as nat));
    assert(b.take(6) =~= "build/"@);
    assert(b.skip(6) =~= text::decimal(n as nat));
    if text::begins_with(a, "build/"@) {
        assert(a.take(6)[0] == a[0]);
    }
}

// ---- what Nix is asked for ----

/// The expression for Nix names the two archives and the system. The cross system is set exactly
/// if there is one, to what was given; nothing else depends on it.
pub proof fn law_expression_sets_cross_system(
    release: Seq<char>,
    tarball: Seq<char>,
    system: Seq<char>,
    cross_system: Seq<char>,
)
    ensures
        ({
            let native = "\nimport ''${fetchTarball \""@ + release
                + "\"}/release.nix'' {\n  nix-ros-overlay = (fetchTarball \""@ + tarball
                + "\");\n  system = \""@ + system + "\";\n  "@;
            &&& nix::evaluator_args(release, tarball, system, None) == seq![
                "--force-recurse"@,
                "--show-input-drvs"@,
                "--expr"@,
                native + "\n}"@,
            ]
            &&& nix::evaluator_args(release, tarball, system, Some(cross_system)) == seq![
                "--force-recurse"@,
                "--show-input-drvs"@,
                "--expr"@,
                native + (" crossSystem = "@ + cross_system + ";"@) + "\n}"@,
            ]
        }),
{
    reveal_strlit("");
    let native = "\nimport ''${fetchTarball \""@ + release
        + "\"}/release.nix'' {\n  nix-ros-overlay = (fetchTarball \""@ + tarball
        + "\");\n  system = \""@ + system + "\";\n  "@;
    assert(native + ""@ + "\n}"@ =~= native + "\n}"@);
    assert(nix::evaluator_args(release, tarball, system, None)[3] =~= native + "\n}"@);
}

/// For an evaluation of a cross jobset, the expression for Nix sets the cross system that its
/// document names; for another one it sets none.
pub proof fn law_cross_jobset_is_evaluated_as_such(doc: JsonModel, cross_system: Seq<char>)
    ensures
        ({
            let read = inputs::inputs_of(doc);
            let args = nix::evaluator_args(
                read.release_nix_tarball_url,
                read.tarball_url,
                read.system,
                read.cross_system,
            );
            let native = nix::evaluator_args(
                read.release_nix_tarball_url,
                read.tarball_url,
                read.system,
                None,
            );
            &&& value_given(doc, "crossSystem"@, cross_system) ==> args[3] == native[3].take(
                native[3].len() - 2,
            ) + (" crossSystem = "@ + cross_system + ";"@) + "\n}"@
            &&& (forall|v: Seq<char>| !#[trigger] value_given(doc, "crossSystem"@, v)) ==> args
                == native
        }),
{
    let read = inputs::inputs_of(doc);
    let (r, t, s) = (read.release_nix_tarball_url, read.tarball_url, read.system);
    let top = "jobsetevalinputs"@;
    if value_given(doc, "crossSystem"@, cross_system) {
        lemma_text_far_below(doc, top, "crossSystem"@, "value"@, cross_system);
        law_expression_sets_cross_system(r, t, s, cross_system);
        reveal_strlit("\n}");
        let native = nix::evaluator_args(r, t, s, None)[3];
        let head = "\nimport ''${fetchTarball \""@ + r
            + "\"}/release.nix'' {\n  nix-ros-overlay = (fetchTarball \""@ + t
            + "\");\n  system = \""@ + s + "\";\n  "@;
        assert(native.take(native.len() - 2) =~= head);
    }
    if forall|v: Seq<char>| !#[trigger] value_given(doc, "crossSystem"@, v) {
        if let Some(v) = read.cross_system {
            lemma_text_far_below(doc, top, "crossSystem"@, "value"@, v);
            assert(value_given(doc, "crossSystem"@, v));
        }
    }
}

/// The file that keeps the jobs is named by all that they depend on, in order, with an underscore
/// in place of every slash of the addresses.
pub proof fn law_file_is_named_by_inputs(
    release: Seq<char>,
    tarball: Seq<char>,
    system: Seq<char>,
    distro: Seq<char>,
    cross_system: Seq<char>,
    i: int,
)
    requires
        0 <= i < release.len(),
    ensures
        ({
            let name = nix::jobs_file(release, tarball, system, distro, cross_system);
            let tail = "_"@ + system + "_"@ + distro + "_"@ + cross_system + ".jsonl"@;
            &&& name.len() == release.len() + 1 + tarball.len() + tail.len()
            &&& name[i] == (if release[i] == '/' {
                '_'
            } else {
                release[i]
            })
            &&& name[release.len() as int] == '_'
            &&& forall|j: int|
                0 <= j < tarball.len() ==> #[trigger] name[release.len() + 1 + j] == (if tarball[j]
                    == '/' {
                    '_'
                } else {
                    tarball[j]
                })
            &&& name.skip(release.len() + 1 + tarball.len() as int) == tail
        }),
{
    reveal_strlit("_");
    let name = nix::jobs_file(release, tarball, system, distro, cross_system);
    let tail = "_"@ + system + "_"@ + distro + "_"@ + cross_system + ".jsonl"@;
    let (a, b) = (
        text::with_char_replaced(release, '/', '_'),
        text::with_char_replaced(tarball, '/', '_'),
    );
    assert(name =~= a + "_"@ + b + tail);
    assert(name.skip(release.len() + 1 + tarball.len() as int) =~= tail);
}

/// A part of the file name that may be missing is written so that it can be told whether it is.
pub proof fn law_missing_parts_are_named(s: Seq<char>)
    ensures
        nix::debug_optional(None) == "None"@,
        nix::debug_optional(Some(s)) == "Some("@ + nix::debug_quoted(s) + ")"@,
        nix::debug_optional(Some(s)) != nix::debug_optional(None),
{
    reveal_strlit("None");
    reveal_strlit("Some(");
    assert(nix::debug_optional(Some(s))[0] == 'S');
    assert(nix::debug_optional(None)[0] == 'N');
}

/// The jobs on lines are the documents on them, one for one, if every line holds one.
pub proof fn law_one_job_on_each_line(lines: Seq<Seq<char>>, i: int)
    requires
        0 <= i < lines.len(),
    ensures
        nix::jobs_on(lines) matches Ok(jobs) ==> jobs.len() == lines.len() && json::parsed_json(
            lines[i],
        ) == Ok::<JsonModel, serde_json::Error>(jobs[i]),
        json::parsed_json(lines[i]) is Err ==> nix::jobs_on(lines) is Err,
        (forall|k: int| 0 <= k < lines.len() ==> json::parsed_json(#[trigger] lines[k]) is Ok)
            ==> nix::jobs_on(lines) is Ok,
    decreases lines.len(),
{
    let fewer = lines.drop_last();
    if fewer.len() > 0 {
        law_one_job_on_each_line(fewer, if i < fewer.len() { i } else { 0 });
    } else {
        assert(nix::jobs_on(fewer) is Ok);
    }
    if forall|k: int| 0 <= k < lines.len() ==> json::parsed_json(#[trigger] lines[k]) is Ok {
        assert forall|k: int| 0 <= k < fewer.len() implies json::parsed_json(
            #[trigger] fewer[k],
        ) is Ok by {
            assert(json::parsed_json(lines[k]) is Ok);
        }
        assert(json::parsed_json(lines[lines.len() - 1]) is Ok);
    }
}

/// The text by which lines are kept holds them one after the other, each with a line feed.
pub proof fn law_lines_are_kept_in_order(lines: Seq<Seq<char>>, line: Seq<char>)
    ensures
        nix::cache_text(Seq::empty()) == Seq::<char>::empty(),
        nix::cache_text(lines.push(line)) == nix::cache_text(lines) + line.push('\n'),
{
    reveal_strlit("\n");
    assert(lines.push(line).drop_last() =~= lines);
    assert(nix::cache_text(lines.push(line)) =~= nix::cache_text(lines) + line.push('\n'));
}

// ---- the evaluations of a jobset ----

/// The latest evaluation of a jobset is the one that its document lists first.
pub proof fn law_latest_evaluation_is_listed_first(doc: JsonModel, evals: Seq<JsonModel>, n: u64)
    requires
        holds(doc, "evals"@, JsonModel::Array(evals)),
        evals.len() > 0,
        holds(evals[0], "id"@, JsonModel::Number(NumberModel::PosInt(n))),
    ensures
        jobset::latest_in(doc) == Some(n),
{
    lemma_at(doc, "evals"@, JsonModel::Array(evals));
    lemma_at(evals[0], "id"@, JsonModel::Number(NumberModel::PosInt(n)));
}

/// Older evaluations at the end of the list, however many, do not change which one is the latest.
pub proof fn law_older_evaluations_do_not_count(
    doc: JsonModel,
    longer: JsonModel,
    evals: Seq<JsonModel>,
    older: Seq<JsonModel>,
)
    requires
        holds(doc, "evals"@, JsonModel::Array(evals)),
        holds(longer, "evals"@, JsonModel::Array(evals + older)),
        evals.len() > 0,
    ensures
        jobset::latest_in(longer) == jobset::latest_in(doc),
{
    lemma_at(doc, "evals"@, JsonModel::Array(evals));
    lemma_at(longer, "evals"@, JsonModel::Array(evals + older));
    assert((evals + older)[0] == evals[0]);
}

/// A document that lists no evaluation, or none with a number in the first place, does not tell
/// the latest one.
pub proof fn law_latest_evaluation_is_told(doc: JsonModel, n: u64)
    requires
        jobset::latest_in(doc) == Some(n),
    ensures
        exists|evals: Seq<JsonModel>| #[trigger]
            holds(doc, "evals"@, JsonModel::Array(evals)) && evals.len() > 0 && holds(
                evals[0],
                "id"@,
                JsonModel::Number(NumberModel::PosInt(n)),
            ),
{
    let evals = jobset::evals_in(doc)->0;
    lemma_at(doc, "evals"@, JsonModel::Array(evals));
    lemma_at(evals[0], "id"@, JsonModel::Number(NumberModel::PosInt(n)));
}

/// An evaluation is of a commit of the overlay and has a number.
pub open spec fn is_eval_of(eval: JsonModel, sha: Seq<char>, id: u64) -> bool {
    &&& text_far_below(eval, "jobsetevalinputs"@, "nix-ros-overlay"@, "revision"@, sha)
    &&& holds(eval, "id"@, JsonModel::Number(NumberModel::PosInt(id)))
}

pub(crate) proof fn lemma_eval_finding(eval: JsonModel, sha: Seq<char>, id: u64)
    ensures
        jobset::eval_finding(eval, sha) == Finding::Found(id) <==> is_eval_of(eval, sha, id),
{
    lemma_text_far_below(eval, "jobsetevalinputs"@, "nix-ros-overlay"@, "revision"@, sha);
    lemma_at(eval, "id"@, JsonModel::Number(NumberModel::PosInt(id)));
}

/// What a search finds is not preceded by anything that ends the search.
proof fn lemma_found_first(findings: Seq<Finding>) -> (i: int)
    requires
        jobset::first_finding(findings) is Found,
    ensures
        0 <= i < findings.len(),
        findings[i] == jobset::first_finding(findings),
        forall|j: int| 0 <= j < i ==> (#[trigger] findings[j]) == Finding::NotFound,
    decreases findings.len(),
{
    let fewer = findings.drop_last();
    if jobset::first_finding(fewer) == Finding::NotFound {
        lemma_nothing_found(fewer);
        assert forall|j: int| 0 <= j < findings.len() - 1 implies (#[trigger] findings[j])
            == Finding::NotFound by {
            assert(fewer[j] == Finding::NotFound);
        }
        findings.len() - 1
    } else {
        let i = lemma_found_first(fewer);
        assert forall|j: int| 0 <= j < i implies (#[trigger] findings[j]) == Finding::NotFound by {
            assert(fewer[j] == Finding::NotFound);
        }
        i
    }
}

proof fn lemma_nothing_found(findings: Seq<Finding>)
    requires
        jobset::first_finding(findings) == Finding::NotFound,
    ensures
        forall|j: int| 0 <= j < findings.len() ==> (#[trigger] findings[j]) == Finding::NotFound,
    decreases findings.len(),
{
    if findings.len() > 0 {
        let fewer = findings.drop_last();
        lemma_nothing_found(fewer);
        assert forall|j: int| 0 <= j < findings.len() implies (#[trigger] findings[j])
            == Finding::NotFound by {
            if j < fewer.len() {
                assert(fewer[j] == Finding::NotFound);
            }
        }
    }
}

/// What is found for a commit is the first evaluation of it in the first jobset that has one: no
/// jobset before that one has an evaluation of the commit, and none is listed before it there.
pub proof fn law_first_evaluation_of_commit_is_found(
    jobsets: Seq<JsonModel>,
    sha: Seq<char>,
    id: u64,
)
    requires
        jobset::commit_finding(jobsets, sha) == Finding::Found(id),
    ensures
        exists|i: int, j: int| #[trigger] is_first_eval_of(jobsets, sha, id, i, j),
{
    let findings = jobsets.map_values(|doc: JsonModel| jobset::jobset_finding(doc, sha));
    let i = lemma_found_first(findings);
    let evals = jobset::evals_in(jobsets[i])->0;
    let inner = evals.map_values(|eval: JsonModel| jobset::eval_finding(eval, sha));
    let j = lemma_found_first(inner);
    lemma_at(jobsets[i], "evals"@, JsonModel::Array(evals));
    lemma_eval_finding(evals[j], sha, id);
    assert forall|j2: int, id2: u64| 0 <= j2 < j implies !#[trigger] is_eval_of(
        evals[j2],
        sha,
        id2,
    ) by {
        assert(inner[j2] == Finding::NotFound);
        lemma_eval_finding(evals[j2], sha, id2);
    }
    assert forall|i2: int, evals2: Seq<JsonModel>, j2: int, id2: u64|
        0 <= i2 < i && #[trigger] holds(jobsets[i2], "evals"@, JsonModel::Array(evals2)) && 0 <= j2
            < evals2.len() implies !#[trigger] is_eval_of(evals2[j2], sha, id2) by {
        assert(findings[i2] == Finding::NotFound);
        lemma_at(jobsets[i2], "evals"@, JsonModel::Array(evals2));
        let inner2 = evals2.map_values(|eval: JsonModel| jobset::eval_finding(eval, sha));
        lemma_nothing_found(inner2);
        assert(inner2[j2] == Finding::NotFound);
        lemma_eval_finding(evals2[j2], sha, id2);
    }
    assert(is_first_eval_of(jobsets, sha, id, i, j));
}

/// The evaluation at a place is of a commit, and none before it is.
pub open spec fn is_first_eval_of(
    jobsets: Seq<JsonModel>,
    sha: Seq<char>,
    id: u64,
    i: int,
    j: int,
) -> bool {
    &&& 0 <= i < jobsets.len()
    &&& exists|evals: Seq<JsonModel>| #[trigger]
        holds(jobsets[i], "evals"@, JsonModel::Array(evals)) && 0 <= j < evals.len() && is_eval_of(
            evals[j],
            sha,
            id,
        ) && forall|j2: int, id2: u64| 0 <= j2 < j ==> !#[trigger] is_eval_of(evals[j2], sha, id2)
    &&& forall|i2: int, evals2: Seq<JsonModel>, j2: int, id2: u64|
        0 <= i2 < i && #[trigger] holds(jobsets[i2], "evals"@, JsonModel::Array(evals2)) && 0 <= j2
            < evals2.len() ==> !#[trigger] is_eval_of(evals2[j2], sha, id2)
}

/// If nothing is found for a commit, no jobset has an evaluation of it.
pub proof fn law_nothing_found_means_no_evaluation(
    jobsets: Seq<JsonModel>,
    sha: Seq<char>,
    i: int,
    evals: Seq<JsonModel>,
    j: int,
    id: u64,
)
    requires
        jobset::commit_finding(jobsets, sha) == Finding::NotFound,
        0 <= i < jobsets.len(),
        holds(jobsets[i], "evals"@, JsonModel::Array(evals)),
        0 <= j < evals.len(),
    ensures
        !is_eval_of(evals[j], sha, id),
{
    let findings = jobsets.map_values(|doc: JsonModel| jobset::jobset_finding(doc, sha));
    lemma_nothing_found(findings);
    assert(findings[i] == Finding::NotFound);
    lemma_at(jobsets[i], "evals"@, JsonModel::Array(evals));
    let inner = evals.map_values(|eval: JsonModel| jobset::eval_finding(eval, sha));
    lemma_nothing_found(inner);
    assert(inner[j] == Finding::NotFound);
    lemma_eval_finding(evals[j], sha, id);
}

/// A jobset whose evaluations all have a revision of the overlay and a number is never malformed.
pub proof fn law_sound_jobsets_are_not_malformed(
    jobsets: Seq<JsonModel>,
    sha: Seq<char>,
)
    requires
        forall|i: int| 0 <= i < jobsets.len() ==> is_sound(#[trigger] jobsets[i]),
    ensures
        jobset::commit_finding(jobsets, sha) != Finding::Malformed,
{
    let findings = jobsets.map_values(|doc: JsonModel| jobset::jobset_finding(doc, sha));
    assert forall|i: int| 0 <= i < findings.len() implies (#[trigger] findings[i])
        != Finding::Malformed by {
        let doc = jobsets[i];
        assert(is_sound(doc));
        let evals = choose|evals: Seq<JsonModel>| #[trigger]
            holds(doc, "evals"@, JsonModel::Array(evals)) && all_told(evals);
        lemma_at(doc, "evals"@, JsonModel::Array(evals));
        let inner = evals.map_values(|eval: JsonModel| jobset::eval_finding(eval, sha));
        assert forall|j: int| 0 <= j < inner.len() implies (#[trigger] inner[j])
            != Finding::Malformed by {
            assert(is_told(evals[j]));
            let (s, id) = choose|s: Seq<char>, id: u64| #[trigger] is_eval_of(evals[j], s, id);
            lemma_eval_finding(evals[j], s, id);
        }
        lemma_not_malformed(inner);
    }
    lemma_not_malformed(findings);
}

/// An evaluation tells its commit and its number.
pub open spec fn is_told(eval: JsonModel) -> bool {
    exists|s: Seq<char>, id: u64| #[trigger] is_eval_of(eval, s, id)
}

/// All evaluations tell their commits and their numbers.
pub open spec fn all_told(evals: Seq<JsonModel>) -> bool {
    forall|j: int| 0 <= j < evals.len() ==> is_told(#[trigger] evals[j])
}

/// A document lists evaluations that tell their commits and their numbers.
pub open spec fn is_sound(doc: JsonModel) -> bool {
    exists|evals: Seq<JsonModel>| #[trigger]
        holds(doc, "evals"@, JsonModel::Array(evals)) && all_told(evals)
}

proof fn lemma_not_malformed(findings: Seq<Finding>)
    requires
        forall|i: int| 0 <= i < findings.len() ==> (#[trigger] findings[i]) != Finding::Malformed,
    ensures
        jobset::first_finding(findings) != Finding::Malformed,
    decreases findings.len(),
{
    if findings.len() > 0 {
        let fewer = findings.drop_last();
        assert forall|i: int| 0 <= i < fewer.len() implies (#[trigger] fewer[i])
            != Finding::Malformed by {
            assert(findings[i] != Finding::Malformed);
        }
        lemma_not_malformed(fewer);
        assert(findings[findings.len() - 1] != Finding::Malformed);
    }
}

// ---- pull requests ----

/// A pull request is read from the commits of its base and its head. It goes into the development
/// branch if its base is the branch `develop` of the overlay, and only then.
pub proof fn law_pull_request_is_read(doc: JsonModel, base: Seq<char>, head: Seq<char>)
    requires
        text_below(doc, "base"@, "sha"@, base),
        text_below(doc, "head"@, "sha"@, head),
    ensures
        jobset::pull_request_in(doc) is Some,
        ({
            let request = jobset::pull_request_in(doc)->0;
            &&& request.base_sha == base
            &&& request.head_sha == head
            &&& request.into_develop <==> text_below(doc, "base"@, "ref"@, "develop"@)
                && text_far_below(
                doc,
                "base"@,
                "repo"@,
                "full_name"@,
                "lopsided98/nix-ros-overlay"@,
            )
        }),
{
    lemma_text_below(doc, "base"@, "sha"@, base);
    lemma_text_below(doc, "head"@, "sha"@, head);
    lemma_text_below(doc, "base"@, "ref"@, "develop"@);
    lemma_text_far_below(
        doc,
        "base"@,
        "repo"@,
        "full_name"@,
        "lopsided98/nix-ros-overlay"@,
    );
}

/// A pull request without one of its commits is not read.
pub proof fn law_commits_of_pull_request_are_needed(doc: JsonModel)
    requires
        jobset::pull_request_in(doc) is Some,
    ensures
        exists|base: Seq<char>| #[trigger] text_below(doc, "base"@, "sha"@, base),
        exists|head: Seq<char>| #[trigger] text_below(doc, "head"@, "sha"@, head),
{
    let request = jobset::pull_request_in(doc)->0;
    lemma_text_below(doc, "base"@, "sha"@, request.base_sha);
    lemma_text_below(doc, "head"@, "sha"@, request.head_sha);
}

/// Both evaluations are compared if there are both. Else the commits are looked for again while the
/// cache is used; without it, the latest evaluation stands in for that of the base if only that is
/// missing and the base is the development branch, and otherwise there is nothing to compare.
pub proof fn law_step_for_pull_request(
    request: PullRequestModel,
    base_eval: Option<u64>,
    head_eval: Option<u64>,
    use_cache: bool,
    b: u64,
    h: u64,
)
    ensures
        ({
            let step = request.step(base_eval, head_eval, use_cache);
            &&& step == PrStepModel::Compare(b, h) <==> base_eval == Some(b) && head_eval == Some(h)
            &&& step is LookAgain <==> use_cache && (base_eval is None || head_eval is None)
            &&& step == PrStepModel::CompareLatest(h) <==> !use_cache && base_eval is None
                && head_eval == Some(h) && request.into_develop
            &&& step is Fail <==> !use_cache && (head_eval is None || base_eval is None
                && !request.into_develop)
        }),
{
}

/// The message on missing evaluations names both commits and what was found of them.
pub proof fn law_missing_evaluations_are_named(
    request: PullRequestModel,
    base_eval: Option<u64>,
    head_eval: Option<u64>,
    message: Seq<char>,
)
    requires
        request.step(base_eval, head_eval, false) == PrStepModel::Fail(message),
    ensures
        ({
            let b = match base_eval {
                Some(id) => text::decimal(id as nat),
                None => "???"@,
            };
            let h = match head_eval {
                Some(id) => text::decimal(id as nat),
                None => "???"@,
            };
            message == "Cannot find needed Hydra evaluations for both commits: base="@
                + request.base_sha + "->"@ + b + " head="@ + request.head_sha + "->"@ + h
        }),
{
}

/// A malformed evaluation that is met before a commit is found stops the search; else the step
/// goes by what was found of each commit.
pub proof fn law_decision_goes_by_findings(
    request: PullRequestModel,
    jobsets: Seq<JsonModel>,
    use_cache: bool,
    b: u64,
    h: u64,
)
    ensures
        ({
            let (base, head) = (
                jobset::commit_finding(jobsets, request.base_sha),
                jobset::commit_finding(jobsets, request.head_sha),
            );
            let decision = request.decision(jobsets, use_cache);
            &&& decision is None <==> base == Finding::Malformed || head == Finding::Malformed
            &&& base == Finding::Found(b) && head == Finding::Found(h) ==> decision == Some(
                PrStepModel::Compare(b, h),
            )
            &&& base == Finding::NotFound && head == Finding::Found(h) ==> decision == Some(
                request.step(None, Some(h), use_cache),
            )
            &&& base == Finding::Found(b) && head == Finding::NotFound ==> decision == Some(
                request.step(Some(b), None, use_cache),
            )
            &&& base == Finding::NotFound && head == Finding::NotFound ==> decision == Some(
                request.step(None, None, use_cache),
            )
        }),
{
}

/// A jobset is looked for in the project for experiments and then in that of the overlay.
pub proof fn law_jobset_is_looked_for_in_two_projects(jobset_name: Seq<char>)
    ensures
        jobset::projects().len() == 2,
        jobset::evals_path(jobset::projects()[0], jobset_name) == "jobset/"@ + "nix-ros-experiments"@
            + "/"@ + jobset_name + "/evals"@,
        jobset::evals_path(jobset::projects()[1], jobset_name) == "jobset/"@ + "nix-ros-overlay"@
            + "/"@ + jobset_name + "/evals"@,
{
}

/// A jobset that is not found is told with all errors that were met, each on a line of its own.
pub proof fn law_errors_of_search_are_told(jobset_name: Seq<char>, a: Seq<char>, b: Seq<char>)
    ensures
        jobset::jobset_notice(jobset_name, seq![a, b]) == "Cannot fetch "@ + jobset_name
            + " jobset because of the following errors:\n  "@ + (a + "\n  "@ + b),
{
    laws::texts::law_joined_in_parts(seq![a], seq![b], "\n  "@);
    laws::texts::law_joined_in_parts(seq![b], seq![a], "\n  "@);
    assert(seq![a] + seq![b] =~= seq![a, b]);
}

/// The path of a pull request ends with its number.
pub proof fn law_pull_request_path_ends_with_number(n: usize)
    ensures
        jobset::pull_request_api(n).take(39) == "repos/lopsided98/nix-ros-overlay/pulls/"@,
        laws::texts::number_of(jobset::pull_request_api(n).skip(39)) == n,
{
    reveal_strlit("repos/lopsided98/nix-ros-overlay/pulls/");
    laws::texts::law_decimal_reads_back(n as nat);
    let path = jobset::pull_request_api(n);
    assert(path.take(39) =~= "repos/lopsided98/nix-ros-overlay/pulls/"@);
    assert(path.skip(39) =~= text::decimal(n as nat));
}

/// The commits of a pull request are looked for in three jobsets, in this order.
pub proof fn law_jobsets_of_pull_requests()
    ensures
        jobset::pull_request_jobsets() == seq![
            jobset::evals_path("nix-ros-experiments"@, "wentasah-rosdistro-sync"@),
            jobset::evals_path("nix-ros-experiments"@, "wentasah-test"@),
            jobset::evals_path("nix-ros-experiments"@, "lopsided98-develop"@),
        ],
{
    reveal_strlit("jobset/");
    reveal_strlit("/");
    reveal_strlit("/evals");
    reveal_strlit("nix-ros-experiments");
    reveal_strlit("wentasah-rosdistro-sync");
    reveal_strlit("wentasah-test");
    reveal_strlit("lopsided98-develop");
    reveal_strlit("jobset/nix-ros-experiments/wentasah-rosdistro-sync/evals");
    reveal_strlit("jobset/nix-ros-experiments/wentasah-test/evals");
    reveal_strlit("jobset/nix-ros-experiments/lopsided98-develop/evals");
    let all = jobset::pull_request_jobsets();
    assert(all[0] =~= jobset::evals_path("nix-ros-experiments"@, "wentasah-rosdistro-sync"@));
    assert(all[1] =~= jobset::evals_path("nix-ros-experiments"@, "wentasah-test"@));
    assert(all[2] =~= jobset::evals_path("nix-ros-experiments"@, "lopsided98-develop"@));
    assert(all =~= seq![
        jobset::evals_path("nix-ros-experiments"@, "wentasah-rosdistro-sync"@),
        jobset::evals_path("nix-ros-experiments"@, "wentasah-test"@),
        jobset::evals_path("nix-ros-experiments"@, "lopsided98-develop"@),
    ]);
}

} // verus!
