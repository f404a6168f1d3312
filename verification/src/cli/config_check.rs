//! What `pudu config check` says.

use vstd::prelude::*;

use crate::config::{Platform, PlatformModel};
use crate::dict::Dict;
use crate::error::{chain_text, full_message, ConfigError, ConfigWarning};
use crate::json::{
    a_member_is_found_under_its_name, add_member, json_model, json_text, list_texts, member_of,
    members_model, object, print_json, texts_json, Json, JsonModel,
};
use crate::lock::types::Table;
use crate::platform::prune::table_keys;
use crate::text::{
    decimal, decimal_text, join, join_with, joined_pieces_stand, occurs_at, stands_in,
    stands_inside,
};

verus! {

/// How findings are printed.
#[derive(Debug, Clone, Copy, PartialEq, Eq, Structural)]
pub enum OutputFormat {
    Human,
    Json,
}

/// The line for a configuration without errors.
pub open spec fn ok_text(platforms: Table<PlatformModel>) -> Seq<char> {
    "pudu.toml ok: "@ + decimal_text(platforms.len()) + (if platforms.len() == 1 {
        " platform ("@
    } else {
        " platforms ("@
    }) + join_with(table_keys(platforms), ", "@) + ")"@
}

/// Says that a configuration has no errors, and what it configures.
pub fn ok_line(platforms: &Dict<Platform>) -> (r: String)
    ensures
        r@ == ok_text(platforms.deep_view()),
{
    let ghost table = platforms.deep_view();
    let mut names: Vec<String> = Vec::new();
    let mut i: usize = 0;
    assert(names.deep_view() =~= table_keys(table).take(0));
    while i < platforms.len()
        invariant
            table == platforms.deep_view(),
            i <= table.len(),
            names.deep_view() == table_keys(table).take(i as int),
        decreases table.len() - i,
    {
        let ghost prior = names.deep_view();
        names.push(platforms.key(i).clone());
        assert(names.deep_view() =~= prior.push(table[i as int].0));
        assert(table_keys(table).take(i + 1) =~= prior.push(table[i as int].0));
        i += 1;
    }
    assert(table_keys(table).take(i as int) =~= table_keys(table));
    let mut out = "pudu.toml ok: ".to_owned();
    out.append(decimal(platforms.len() as u64).as_str());
    if platforms.len() == 1 {
        out.append(" platform (");
    } else {
        out.append(" platforms (");
    }
    out.append(join(&names, ", ").as_str());
    out.append(")");
    out
}

/// The line that counts the errors: only where there are several, since one speaks
/// for itself.
pub fn count_line(errors: usize) -> (r: Option<String>)
    ensures
        match r {
            Some(line) => errors > 1 && line@ == decimal_text(errors as nat)
                + " errors in pudu.toml"@,
            None => errors <= 1,
        },
{
    if errors > 1 {
        let mut out = decimal(errors as u64);
        out.append(" errors in pudu.toml");
        Some(out)
    } else {
        None
    }
}

/// What is printed for machines.
#[derive(Debug, PartialEq)]
pub struct Envelope {
    pub ok: bool,
    pub errors: Vec<String>,
    pub warnings: Vec<String>,
}

/// An envelope as a value.
pub open spec fn envelope_json(e: Envelope) -> JsonModel {
    JsonModel::Object(
        seq![
            ("ok"@, JsonModel::Bool(e.ok)),
            ("errors"@, texts_json(e.errors.deep_view())),
            ("warnings"@, texts_json(e.warnings.deep_view())),
        ],
    )
}

/// Turns an envelope into a value.
pub fn envelope_value(e: &Envelope) -> (r: Json)
    ensures
        json_model(r) == envelope_json(*e),
{
    let mut members: Vec<(String, Json)> = Vec::new();
    assert(members_model(members@) =~= Seq::empty());
    add_member(&mut members, "ok", Json::Bool(e.ok));
    add_member(&mut members, "errors", list_texts(&e.errors));
    add_member(&mut members, "warnings", list_texts(&e.warnings));
    assert(members_model(members@) =~= envelope_json(*e)->Object_0);
    object(members)
}

/// Writes an envelope.
pub fn envelope_text(e: &Envelope) -> (r: String)
    ensures
        r@ == json_text(envelope_json(*e)),
{
    print_json(&envelope_value(e))
}

/// All findings on a configuration, each with what lies behind it.
pub fn envelope(errors: &Vec<ConfigError>, warnings: &Vec<ConfigWarning>) -> (r: Envelope)
    ensures
        r.ok == (errors.len() == 0),
        r.errors.len() == errors.len(),
        forall|i: int|
            0 <= i < errors.len() ==> (#[trigger] r.errors@[i])@ == chain_text(
                errors@[i].text(),
                errors@[i].cause_texts(),
                errors@[i].cause_texts().len() as int,
            ),
        r.warnings.len() == warnings.len(),
        forall|i: int|
            0 <= i < warnings.len() ==> (#[trigger] r.warnings@[i])@ == warnings@[i].text(),
{
    let mut said: Vec<String> = Vec::new();
    let mut i: usize = 0;
    while i < errors.len()
        invariant
            i <= errors.len(),
            said.len() == i,
            forall|k: int|
                0 <= k < i ==> (#[trigger] said@[k])@ == chain_text(
                    errors@[k].text(),
                    errors@[k].cause_texts(),
                    errors@[k].cause_texts().len() as int,
                ),
        decreases errors.len() - i,
    {
        let message = errors[i].message();
        said.push(full_message(message.as_str(), &errors[i].causes()));
        i += 1;
    }
    let mut warned: Vec<String> = Vec::new();
    i = 0;
    while i < warnings.len()
        invariant
            i <= warnings.len(),
            warned.len() == i,
            forall|k: int| 0 <= k < i ==> (#[trigger] warned@[k])@ == warnings@[k].text(),
        decreases warnings.len() - i,
    {
        warned.push(warnings[i].message());
        i += 1;
    }
    Envelope { ok: errors.len() == 0, errors: said, warnings: warned }
}

/// A failure before anything could be checked: it is reported like any other
/// finding, with what lies behind it.
pub fn early_envelope(message: &str, causes: &Vec<String>) -> (r: Envelope)
    ensures
        !r.ok,
        r.errors.deep_view() == seq![
            chain_text(message@, causes.deep_view(), causes.deep_view().len() as int),
        ],
        r.warnings.len() == 0,
{
    let mut errors: Vec<String> = Vec::new();
    errors.push(full_message(message, causes));
    assert(errors.deep_view() =~= seq![
        chain_text(message@, causes.deep_view(), causes.deep_view().len() as int),
    ]);
    Envelope { ok: false, errors, warnings: Vec::new() }
}

/// A reader of what is printed for machines finds whether there are errors, and every
/// finding as a text, in its order.
pub proof fn an_envelope_holds_its_findings(e: Envelope)
    ensures
        member_of(envelope_json(e), "ok"@) == Some(JsonModel::Bool(e.ok)),
        ({
            let errors = member_of(envelope_json(e), "errors"@);
            &&& errors is Some && errors->Some_0 is List && errors->Some_0->List_0.len()
                == e.errors.len()
            &&& forall|i: int|
                0 <= i < e.errors.len() ==> #[trigger] errors->Some_0->List_0[i]
                    == JsonModel::Text(e.errors@[i]@)
        }),
        ({
            let warnings = member_of(envelope_json(e), "warnings"@);
            &&& warnings is Some && warnings->Some_0 is List && warnings->Some_0->List_0.len()
                == e.warnings.len()
            &&& forall|i: int|
                0 <= i < e.warnings.len() ==> #[trigger] warnings->Some_0->List_0[i]
                    == JsonModel::Text(e.warnings@[i]@)
        }),
{
    reveal_strlit("ok");
    reveal_strlit("errors");
    reveal_strlit("warnings");
    let ms = envelope_json(e)->Object_0;
    assert("ok"@.len() == 2 && "errors"@.len() == 6 && "warnings"@.len() == 8);
    a_member_is_found_under_its_name(ms, 0);
    a_member_is_found_under_its_name(ms, 1);
    a_member_is_found_under_its_name(ms, 2);
}

/// The line for a configuration without errors counts its platforms and names each.
pub proof fn an_ok_line_names_every_platform(platforms: Table<PlatformModel>, i: int)
    requires
        0 <= i < platforms.len(),
    ensures
        stands_in(ok_text(platforms), platforms[i].0),
        stands_in(ok_text(platforms), decimal_text(platforms.len()) + " platform"@),
{
    reveal_strlit(" platform");
    reveal_strlit(" platform (");
    reveal_strlit(" platforms (");
    let names = join_with(table_keys(platforms), ", "@);
    let count = decimal_text(platforms.len());
    let noun = if platforms.len() == 1 {
        " platform ("@
    } else {
        " platforms ("@
    };
    let all = ok_text(platforms);
    joined_pieces_stand(table_keys(platforms), ", "@, i);
    assert(all =~= ("pudu.toml ok: "@ + count + noun) + names + ")"@);
    stands_inside("pudu.toml ok: "@ + count + noun, names, ")"@, platforms[i].0);
    let at = "pudu.toml ok: "@.len() as int;
    let said = count + " platform"@;
    assert(all.subrange(at, at + said.len()) =~= said);
    assert(occurs_at(all, said, at));
}

} // verus!
