//! The built-in registry: the signature table for each configured module,
//! and the one-call entry point that aggregates all of them.
//!
//! The table is static data; that its texts compile, each with at least one
//! capture, is proved here once and for all, so building the registry
//! cannot fail.
use vstd::prelude::*;

use crate::aggregate::{
    aggregate, provided_image, provider_failure, AggregateError, ModuleImage, ModuleRegistry,
    OffsetTable,
};
use crate::builder::{Derivation, RegistryEntry};
use crate::compile::{compile, lemma_parse_measures, parse_from};
use crate::pattern::{atoms_capture_count, atoms_size, PatternSyntaxError};

verus! {

/// Compiles one registry entry from its offset name and signature text.
/// It fails exactly when the text is malformed, its atoms' total byte
/// length is unrepresentable, or the pattern captures nothing and so could
/// not name an offset.
pub fn entry(name: &str, text: &str) -> (r: Result<RegistryEntry, PatternSyntaxError>)
    ensures
        match r {
            Ok(e) => {
                &&& e.wf()
                &&& e.name@ == name@
                &&& parse_from(text@, 0) == Some(e.pattern.atoms@)
                &&& e.derivation matches Derivation::NoDerivation
            },
            Err(_) => parse_from(text@, 0) is None || atoms_size(parse_from(text@, 0).unwrap())
                > usize::MAX || atoms_capture_count(parse_from(text@, 0).unwrap()) == 0,
        },
{
    let pattern = compile(text)?;
    if pattern.capture_count == 0 {
        return Err(PatternSyntaxError::MissingCapture);
    }
    Ok(
        RegistryEntry {
            name: name.to_owned(),
            pattern,
            derivation: Derivation::NoDerivation,
        },
    )
}

/// Signature text fit for the registry: it parses, its byte length is
/// representable, and it captures at least one value.
pub open spec fn text_ok(t: Seq<char>) -> bool {
    &&& parse_from(t, 0) is Some
    &&& atoms_size(parse_from(t, 0).unwrap()) <= usize::MAX
    &&& atoms_capture_count(parse_from(t, 0).unwrap()) >= 1
}

/// Compiles an entry whose text is known to be fit: this cannot fail.
fn required_entry(name: &str, text: &str) -> (r: RegistryEntry)
    requires
        text_ok(text@),
    ensures
        r.wf(),
        r.name@ == name@,
        parse_from(text@, 0) == Some(r.pattern.atoms@),
        r.derivation matches Derivation::NoDerivation,
{
    match entry(name, text) {
        Ok(e) => e,
        Err(_) => {
            proof {
                assert(false);
            }
            vstd::pervasive::unreached()
        },
    }
}

/// The offset names of the client module's registry, in registration order.
pub open spec fn client_names() -> Seq<Seq<char>> {
    seq![
        "dwEntityList"@,
        "dwGameEntitySystem"@,
        "dwLocalPlayerController"@,
        "dwViewMatrix"@,
        "dwCCitadelCameraManager"@,
        "dwGameTraceManager"@,
        "fnGetCmd"@,
        "fnDecodeNetworkEntities"@,
        "dwSchemas"@,
        "dwMaterialSystem"@,
    ]
}

/// The signature texts of the client module's registry, in order.
pub open spec fn client_texts() -> Seq<Seq<char>> {
    seq![
        "488935${'} 4885f6"@,
        "488b35${'} 4c89b424???? 4c89bc24"@,
        "483b35${'}"@,
        "498d87 u4 4d69f4"@,
        "488d3d${'} 8bd9"@,
        "488b0d${'} 4c8d4424? e8???? e8"@,
        "e8${'} 4885c0 74? 488b40? 488d0d"@,
        "e8${'} 488b53? 483bd5"@,
        "4c8d35${'} 0f2845"@,
        "488d05${'} c3 cccccccccccccccc 488d05????"@,
    ]
}

/// The offset names of the engine module's registry, in order.
pub open spec fn engine2_names() -> Seq<Seq<char>> {
    seq![
        "dwBuildNumber"@,
        "dwNetworkGameClient"@,
        "dwNetworkGameClient_clientTickCount"@,
        "dwNetworkGameClient_deltaTick"@,
        "dwNetworkGameClient_isBackgroundMap"@,
        "dwNetworkGameClient_localPlayer"@,
        "dwNetworkGameClient_maxClients"@,
        "dwNetworkGameClient_serverTickCount"@,
        "dwNetworkGameClient_signOnState"@,
        "dwWindowHeight"@,
        "dwWindowWidth"@,
    ]
}

/// The signature texts of the engine module's registry, in order.
pub open spec fn engine2_texts() -> Seq<Seq<char>> {
    seq![
        "8905${'} 488d0d${} ff15${} 488b0d"@,
        "48893d${'} ff87"@,
        "8b81u4 c3 cccccccccccccccccc 8b81${} c3 cccccccccccccccccc 83b9"@,
        "4c8db7u4 4c897c24"@,
        "0fb681u4 c3 cccccccccccccccc 0fb681${} c3 cccccccccccccccc 4053"@,
        "428b94d3u4 5b 49ffe3 32c0 5b c3 cccccccccccccccc 4053"@,
        "8b81u4 c3????????? 8b81[4] c3????????? 8b81"@,
        "8b81u4 c3 cccccccccccccccccc 83b9"@,
        "448b81u4 488d0d"@,
        "8b05${'} 8903"@,
        "8b05${'} 8907"@,
    ]
}

/// The offset names of the input system module's registry.
pub open spec fn input_system_names() -> Seq<Seq<char>> {
    seq!["dwInputSystem"@]
}

/// The signature texts of the input system module's registry.
pub open spec fn input_system_texts() -> Seq<Seq<char>> {
    seq!["488d05${'} c3 cccccccccccccccc 4053"@]
}

/// A module registry holds exactly the given names, each bound to the
/// pattern its text denotes, with no derivation rule.
pub open spec fn module_entries_ok(
    mr: ModuleRegistry,
    names: Seq<Seq<char>>,
    texts: Seq<Seq<char>>,
) -> bool {
    &&& mr.entries@.len() == texts.len()
    &&& forall|j: int|
        0 <= j < texts.len() ==> {
            let e = #[trigger] mr.entries@[j];
            &&& e.wf()
            &&& e.name@ == names[j]
            &&& parse_from(texts[j], 0) == Some(e.pattern.atoms@)
            &&& e.derivation matches Derivation::NoDerivation
        }
}

/// The built-in table: the three configured modules, each with exactly its
/// registered names and patterns, in registration order.
pub open spec fn is_default_registry(reg: Seq<ModuleRegistry>) -> bool {
    &&& reg.len() == 3
    &&& reg[0].module@ == "client.dll"@
    &&& module_entries_ok(reg[0], client_names(), client_texts())
    &&& reg[1].module@ == "engine2.dll"@
    &&& module_entries_ok(reg[1], engine2_names(), engine2_texts())
    &&& reg[2].module@ == "inputsystem.dll"@
    &&& module_entries_ok(reg[2], input_system_names(), input_system_texts())
}

/// Every client signature text is fit for the registry.
#[verifier::rlimit(100)]
proof fn lemma_client_texts_ok()
    ensures
        forall|j: int| 0 <= j < client_texts().len() ==> text_ok(#[trigger] client_texts()[j]),
{
    reveal_with_fuel(parse_from, 48);
    reveal_strlit("488935${'} 4885f6");
    reveal_strlit("488b35${'} 4c89b424???? 4c89bc24");
    reveal_strlit("483b35${'}");
    reveal_strlit("498d87 u4 4d69f4");
    reveal_strlit("488d3d${'} 8bd9");
    reveal_strlit("488b0d${'} 4c8d4424? e8???? e8");
    reveal_strlit("e8${'} 4885c0 74? 488b40? 488d0d");
    reveal_strlit("e8${'} 488b53? 483bd5");
    reveal_strlit("4c8d35${'} 0f2845");
    reveal_strlit("488d05${'} c3 cccccccccccccccc 488d05????");
    assert forall|j: int| 0 <= j < client_texts().len() implies text_ok(
        #[trigger] client_texts()[j],
    ) by {
        let t = client_texts()[j];
        assert(parse_from(t, 0) is Some);
        lemma_parse_measures(t, 0);
        assert(t[2] == '$' || t[4] == '$' || t[6] == '$' || t[7] == 'u');
        assert(exists|k: int| 0 <= k < t.len() && ((#[trigger] t[k]) == '$' || t[k] == 'u'));
    }
}

/// Every engine signature text is fit for the registry.
#[verifier::rlimit(100)]
proof fn lemma_engine2_texts_ok()
    ensures
        forall|j: int| 0 <= j < engine2_texts().len() ==> text_ok(#[trigger] engine2_texts()[j]),
{
    reveal_with_fuel(parse_from, 70);
    reveal_strlit("8905${'} 488d0d${} ff15${} 488b0d");
    reveal_strlit("48893d${'} ff87");
    reveal_strlit("8b81u4 c3 cccccccccccccccccc 8b81${} c3 cccccccccccccccccc 83b9");
    reveal_strlit("4c8db7u4 4c897c24");
    reveal_strlit("0fb681u4 c3 cccccccccccccccc 0fb681${} c3 cccccccccccccccc 4053");
    reveal_strlit("428b94d3u4 5b 49ffe3 32c0 5b c3 cccccccccccccccc 4053");
    reveal_strlit("8b81u4 c3????????? 8b81[4] c3????????? 8b81");
    reveal_strlit("8b81u4 c3 cccccccccccccccccc 83b9");
    reveal_strlit("448b81u4 488d0d");
    reveal_strlit("8b05${'} 8903");
    reveal_strlit("8b05${'} 8907");
    assert forall|j: int| 0 <= j < engine2_texts().len() implies text_ok(
        #[trigger] engine2_texts()[j],
    ) by {
        let t = engine2_texts()[j];
        assert(parse_from(t, 0) is Some);
        lemma_parse_measures(t, 0);
        assert(t[4] == '$' || t[4] == 'u' || t[6] == '$' || t[6] == 'u' || t[8] == 'u');
        assert(exists|k: int| 0 <= k < t.len() && ((#[trigger] t[k]) == '$' || t[k] == 'u'));
    }
}

/// The input system signature text is fit for the registry.
proof fn lemma_input_system_texts_ok()
    ensures
        forall|j: int|
            0 <= j < input_system_texts().len() ==> text_ok(#[trigger] input_system_texts()[j]),
{
    reveal_with_fuel(parse_from, 40);
    reveal_strlit("488d05${'} c3 cccccccccccccccc 4053");
    assert forall|j: int| 0 <= j < input_system_texts().len() implies text_ok(
        #[trigger] input_system_texts()[j],
    ) by {
        let t = input_system_texts()[j];
        assert(parse_from(t, 0) is Some);
        lemma_parse_measures(t, 0);
        assert(t[6] == '$');
        assert(exists|k: int| 0 <= k < t.len() && ((#[trigger] t[k]) == '$' || t[k] == 'u'));
    }
}

/// The signatures registered for the client module.
#[verifier::rlimit(100)]
fn client_entries() -> (r: Vec<RegistryEntry>)
    ensures
        r@.len() == client_texts().len(),
        forall|j: int| 0 <= j < r@.len() ==> (#[trigger] r@[j]).wf(),
        forall|j: int|
            0 <= j < client_texts().len() ==> {
                let e = #[trigger] r@[j];
                &&& e.name@ == client_names()[j]
                &&& parse_from(client_texts()[j], 0) == Some(e.pattern.atoms@)
                &&& e.derivation matches Derivation::NoDerivation
            },
{
    proof {
        lemma_client_texts_ok();
        assert(client_texts()[0] == "488935${'} 4885f6"@);
        assert(client_texts()[1] == "488b35${'} 4c89b424???? 4c89bc24"@);
        assert(client_texts()[2] == "483b35${'}"@);
        assert(client_texts()[3] == "498d87 u4 4d69f4"@);
        assert(client_texts()[4] == "488d3d${'} 8bd9"@);
        assert(client_texts()[5] == "488b0d${'} 4c8d4424? e8???? e8"@);
        assert(client_texts()[6] == "e8${'} 4885c0 74? 488b40? 488d0d"@);
        assert(client_texts()[7] == "e8${'} 488b53? 483bd5"@);
        assert(client_texts()[8] == "4c8d35${'} 0f2845"@);
        assert(client_texts()[9] == "488d05${'} c3 cccccccccccccccc 488d05????"@);
    }
    vec![
        required_entry("dwEntityList", "488935${'} 4885f6"),
        required_entry("dwGameEntitySystem", "488b35${'} 4c89b424???? 4c89bc24"),
        required_entry("dwLocalPlayerController", "483b35${'}"),
        required_entry("dwViewMatrix", "498d87 u4 4d69f4"),
        required_entry("dwCCitadelCameraManager", "488d3d${'} 8bd9"),
        required_entry("dwGameTraceManager", "488b0d${'} 4c8d4424? e8???? e8"),
        required_entry("fnGetCmd", "e8${'} 4885c0 74? 488b40? 488d0d"),
        required_entry("fnDecodeNetworkEntities", "e8${'} 488b53? 483bd5"),
        required_entry("dwSchemas", "4c8d35${'} 0f2845"),
        required_entry("dwMaterialSystem", "488d05${'} c3 cccccccccccccccc 488d05????"),
    ]
}

/// The signatures registered for the engine module.
#[verifier::rlimit(100)]
fn engine2_entries() -> (r: Vec<RegistryEntry>)
    ensures
        r@.len() == engine2_texts().len(),
        forall|j: int| 0 <= j < r@.len() ==> (#[trigger] r@[j]).wf(),
        forall|j: int|
            0 <= j < engine2_texts().len() ==> {
                let e = #[trigger] r@[j];
                &&& e.name@ == engine2_names()[j]
                &&& parse_from(engine2_texts()[j], 0) == Some(e.pattern.atoms@)
                &&& e.derivation matches Derivation::NoDerivation
            },
{
    proof {
        lemma_engine2_texts_ok();
        assert(engine2_texts()[0] == "8905${'} 488d0d${} ff15${} 488b0d"@);
        assert(engine2_texts()[1] == "48893d${'} ff87"@);
        assert(engine2_texts()[2] == "8b81u4 c3 cccccccccccccccccc 8b81${} c3 cccccccccccccccccc 83b9"@);
        assert(engine2_texts()[3] == "4c8db7u4 4c897c24"@);
        assert(engine2_texts()[4] == "0fb681u4 c3 cccccccccccccccc 0fb681${} c3 cccccccccccccccc 4053"@);
        assert(engine2_texts()[5] == "428b94d3u4 5b 49ffe3 32c0 5b c3 cccccccccccccccc 4053"@);
        assert(engine2_texts()[6] == "8b81u4 c3????????? 8b81[4] c3????????? 8b81"@);
        assert(engine2_texts()[7] == "8b81u4 c3 cccccccccccccccccc 83b9"@);
        assert(engine2_texts()[8] == "448b81u4 488d0d"@);
        assert(engine2_texts()[9] == "8b05${'} 8903"@);
        assert(engine2_texts()[10] == "8b05${'} 8907"@);
    }
    vec![
        required_entry("dwBuildNumber", "8905${'} 488d0d${} ff15${} 488b0d"),
        required_entry("dwNetworkGameClient", "48893d${'} ff87"),
        required_entry(
            "dwNetworkGameClient_clientTickCount",
            "8b81u4 c3 cccccccccccccccccc 8b81${} c3 cccccccccccccccccc 83b9",
        ),
        required_entry("dwNetworkGameClient_deltaTick", "4c8db7u4 4c897c24"),
        required_entry(
            "dwNetworkGameClient_isBackgroundMap",
            "0fb681u4 c3 cccccccccccccccc 0fb681${} c3 cccccccccccccccc 4053",
        ),
        required_entry(
            "dwNetworkGameClient_localPlayer",
            "428b94d3u4 5b 49ffe3 32c0 5b c3 cccccccccccccccc 4053",
        ),
        required_entry(
            "dwNetworkGameClient_maxClients",
            "8b81u4 c3????????? 8b81[4] c3????????? 8b81",
        ),
        required_entry("dwNetworkGameClient_serverTickCount", "8b81u4 c3 cccccccccccccccccc 83b9"),
        required_entry("dwNetworkGameClient_signOnState", "448b81u4 488d0d"),
        required_entry("dwWindowHeight", "8b05${'} 8903"),
        required_entry("dwWindowWidth", "8b05${'} 8907"),
    ]
}

/// The signatures registered for the input system module.
fn input_system_entries() -> (r: Vec<RegistryEntry>)
    ensures
        r@.len() == input_system_texts().len(),
        forall|j: int| 0 <= j < r@.len() ==> (#[trigger] r@[j]).wf(),
        forall|j: int|
            0 <= j < input_system_texts().len() ==> {
                let e = #[trigger] r@[j];
                &&& e.name@ == input_system_names()[j]
                &&& parse_from(input_system_texts()[j], 0) == Some(e.pattern.atoms@)
                &&& e.derivation matches Derivation::NoDerivation
            },
{
    proof {
        lemma_input_system_texts_ok();
        assert(input_system_texts()[0] == "488d05${'} c3 cccccccccccccccc 4053"@);
    }
    vec![required_entry("dwInputSystem", "488d05${'} c3 cccccccccccccccc 4053")]
}

/// The built-in signature table: three modules, each with its named
/// patterns in registration order. The table is static data checked here
/// once; building it never fails.
pub fn default_registry() -> (r: Vec<ModuleRegistry>)
    ensures
        is_default_registry(r@),
        forall|i: int| 0 <= i < r@.len() ==> (#[trigger] r@[i]).wf(),
{
    let client = client_entries();
    let engine2 = engine2_entries();
    let input_system = input_system_entries();
    vec![
        ModuleRegistry { module: "client.dll".to_owned(), entries: client },
        ModuleRegistry { module: "engine2.dll".to_owned(), entries: engine2 },
        ModuleRegistry { module: "inputsystem.dll".to_owned(), entries: input_system },
    ]
}

/// The whole run is deterministic: any two registries that meet the
/// built-in table's description build, on the same image, the same offset
/// map for each configured module. With the aggregator's contract, two
/// successful runs on byte-for-byte identical images therefore agree on
/// every module's map.
pub proof fn lemma_default_registry_determines(
    reg1: Seq<ModuleRegistry>,
    reg2: Seq<ModuleRegistry>,
    img: Seq<u8>,
    i: int,
)
    requires
        is_default_registry(reg1),
        is_default_registry(reg2),
        0 <= i < 3,
    ensures
        crate::builder::build_map(reg1[i].entries@, img) == crate::builder::build_map(
            reg2[i].entries@,
            img,
        ),
{
    let s1 = reg1[i].entries@;
    let s2 = reg2[i].entries@;
    assert forall|j: int| 0 <= j < s1.len() implies crate::builder::entry_view_eq(
        #[trigger] s1[j],
        #[trigger] s2[j],
    ) by {}
    crate::builder::lemma_build_from_congruent(s1, s2, img, Map::<Seq<char>, u32>::empty());
}

/// Resolves every registered offset of every configured module from the
/// provided images: the built-in registry, which always builds, run
/// through the aggregator. A module whose image is absent or failed is
/// fatal for the whole run, with the provider's cause propagated
/// unchanged; a stale pattern only leaves its one name unresolved.
pub fn offsets(images: &Vec<ModuleImage>) -> (r: Result<OffsetTable, AggregateError>)
    requires
        forall|i: int|
            0 <= i < images@.len() ==> ((#[trigger] images@[i]).image matches Ok(buf) ==> buf@.len()
                <= u32::MAX),
    ensures
        match r {
            Ok(t) => {
                &&& t.modules@.len() == 3
                &&& t.modules@[0].module@ == "client.dll"@
                &&& t.modules@[1].module@ == "engine2.dll"@
                &&& t.modules@[2].module@ == "inputsystem.dll"@
                &&& exists|reg: Seq<ModuleRegistry>|
                    #[trigger] is_default_registry(reg) && forall|i: int|
                        0 <= i < 3 ==> crate::aggregate::module_result_ok(
                            reg[i],
                            images@,
                            #[trigger] t.modules@[i],
                        )
            },
            Err(e) => {
                &&& (e.module@ == "client.dll"@ || e.module@ == "engine2.dll"@ || e.module@
                    == "inputsystem.dll"@)
                &&& provided_image(images@, e.module@) is None
                &&& e.cause == provider_failure(images@, e.module@)
            },
        },
        (r is Err) <==> (provided_image(images@, "client.dll"@) is None || provided_image(
            images@,
            "engine2.dll"@,
        ) is None || provided_image(images@, "inputsystem.dll"@) is None),
{
    let registry = default_registry();
    let result = aggregate(&registry, images);
    proof {
        assert(registry@[0].module@ == "client.dll"@);
        assert(registry@[1].module@ == "engine2.dll"@);
        assert(registry@[2].module@ == "inputsystem.dll"@);
        if result is Ok {
            let t = result.unwrap();
            assert(t.modules@[0].module@ == "client.dll"@);
            assert(t.modules@[1].module@ == "engine2.dll"@);
            assert(t.modules@[2].module@ == "inputsystem.dll"@);
        }
    }
    result
}

} // verus!
