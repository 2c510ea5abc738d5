use sigscan::aggregate::{aggregate, ModuleImage, ModuleRegistry, ProviderError};
use sigscan::registry::{default_registry, entry, offsets};

fn tiny_registry() -> Vec<ModuleRegistry> {
    vec![
        ModuleRegistry {
            module: "one.dll".to_string(),
            entries: vec![entry("dwA", "aa${'}").unwrap()],
        },
        ModuleRegistry {
            module: "two.dll".to_string(),
            entries: vec![entry("dwB", "bb${'}").unwrap()],
        },
        ModuleRegistry {
            module: "three.dll".to_string(),
            entries: vec![entry("dwC", "cc${'}").unwrap()],
        },
    ]
}

fn ok_image(name: &str, first: u8) -> ModuleImage {
    let mut buf = vec![0u8; 8];
    buf[0] = first;
    ModuleImage { name: name.to_string(), image: Ok(buf) }
}

#[test]
fn all_modules_present_yields_full_table() {
    let registry = tiny_registry();
    let images = vec![
        ok_image("one.dll", 0xaa),
        ok_image("two.dll", 0xbb),
        ok_image("three.dll", 0xcc),
    ];
    let table = aggregate(&registry, &images).unwrap();
    assert_eq!(table.modules.len(), 3);
    assert_eq!(table.modules[0].module, "one.dll");
    assert_eq!(table.modules[0].offsets.get(&"dwA".to_string()), Some(5));
    assert_eq!(table.modules[1].module, "two.dll");
    assert_eq!(table.modules[1].offsets.get(&"dwB".to_string()), Some(5));
    assert_eq!(table.modules[2].module, "three.dll");
    assert_eq!(table.modules[2].offsets.get(&"dwC".to_string()), Some(5));
}

#[test]
fn one_failing_provider_fails_the_whole_run() {
    // three modules, the middle one's provider fails: no partial table
    let registry = tiny_registry();
    let images = vec![
        ok_image("one.dll", 0xaa),
        ModuleImage { name: "two.dll".to_string(), image: Err(ProviderError::ReadFailure) },
        ok_image("three.dll", 0xcc),
    ];
    let err = aggregate(&registry, &images).unwrap_err();
    assert_eq!(err.module, "two.dll");
    assert_eq!(err.cause, ProviderError::ReadFailure);
}

#[test]
fn missing_module_image_is_module_not_found() {
    let registry = tiny_registry();
    let images = vec![ok_image("one.dll", 0xaa), ok_image("three.dll", 0xcc)];
    let err = aggregate(&registry, &images).unwrap_err();
    assert_eq!(err.module, "two.dll");
    assert_eq!(err.cause, ProviderError::ModuleNotFound);
}

#[test]
fn stale_patterns_do_not_fail_aggregation() {
    let registry = tiny_registry();
    let images = vec![
        ok_image("one.dll", 0x11),
        ok_image("two.dll", 0x22),
        ok_image("three.dll", 0x33),
    ];
    let table = aggregate(&registry, &images).unwrap();
    assert_eq!(table.modules.len(), 3);
    for module in &table.modules {
        assert_eq!(module.offsets.num_entries(), 0);
        assert_eq!(module.events.len(), 1);
    }
}

#[test]
fn default_registry_shape() {
    let registry = default_registry();
    assert_eq!(registry.len(), 3);
    assert_eq!(registry[0].module, "client.dll");
    assert_eq!(registry[0].entries.len(), 10);
    assert_eq!(registry[0].entries[0].name, "dwEntityList");
    assert_eq!(registry[0].entries[0].pattern.byte_len, 10);
    assert_eq!(registry[0].entries[0].pattern.capture_count, 1);
    assert_eq!(registry[1].module, "engine2.dll");
    assert_eq!(registry[1].entries.len(), 11);
    assert_eq!(registry[1].entries[0].name, "dwBuildNumber");
    assert_eq!(registry[1].entries[0].pattern.capture_count, 3);
    assert_eq!(registry[2].module, "inputsystem.dll");
    assert_eq!(registry[2].entries.len(), 1);
    assert_eq!(registry[2].entries[0].name, "dwInputSystem");
}

#[test]
fn offsets_end_to_end() {
    // client image embeds the entity list signature with displacement 0x100
    let mut client = vec![0u8; 16];
    client[..3].copy_from_slice(&[0x48, 0x89, 0x35]);
    client[3] = 0x00;
    client[4] = 0x01;
    client[7] = 0x48;
    client[8] = 0x85;
    client[9] = 0xf6;
    // engine image embeds the window width signature with displacement 0x10
    let mut engine = vec![0u8; 16];
    engine[..2].copy_from_slice(&[0x8b, 0x05]);
    engine[2] = 0x10;
    engine[6] = 0x89;
    engine[7] = 0x07;
    let input = vec![0u8; 16];
    let images = vec![
        ModuleImage { name: "client.dll".to_string(), image: Ok(client) },
        ModuleImage { name: "engine2.dll".to_string(), image: Ok(engine) },
        ModuleImage { name: "inputsystem.dll".to_string(), image: Ok(input) },
    ];
    let table = offsets(&images).unwrap();
    assert_eq!(table.modules.len(), 3);
    // rip target: position 7 after the 4-byte field, plus 0x100
    assert_eq!(table.modules[0].offsets.get(&"dwEntityList".to_string()), Some(0x107));
    // rip target: position 6 after the field, plus 0x10
    assert_eq!(table.modules[1].offsets.get(&"dwWindowWidth".to_string()), Some(0x16));
    assert_eq!(table.modules[2].offsets.num_entries(), 0);
}

#[test]
fn offsets_fails_without_every_configured_module() {
    let images = vec![
        ModuleImage { name: "client.dll".to_string(), image: Ok(vec![0u8; 8]) },
        ModuleImage { name: "inputsystem.dll".to_string(), image: Ok(vec![0u8; 8]) },
    ];
    match offsets(&images) {
        Err(e) => {
            assert_eq!(e.module, "engine2.dll");
            assert_eq!(e.cause, ProviderError::ModuleNotFound);
        },
        _ => panic!("a missing module must fail the whole run"),
    }
}

#[test]
fn offsets_is_deterministic() {
    let make_images = || {
        let mut client = vec![0u8; 16];
        client[..3].copy_from_slice(&[0x48, 0x89, 0x35]);
        client[4] = 0x01;
        client[7] = 0x48;
        client[8] = 0x85;
        client[9] = 0xf6;
        vec![
            ModuleImage { name: "client.dll".to_string(), image: Ok(client) },
            ModuleImage { name: "engine2.dll".to_string(), image: Ok(vec![0u8; 16]) },
            ModuleImage { name: "inputsystem.dll".to_string(), image: Ok(vec![0u8; 16]) },
        ]
    };
    let t1 = offsets(&make_images()).unwrap();
    let t2 = offsets(&make_images()).unwrap();
    assert_eq!(t1.modules.len(), t2.modules.len());
    for (m1, m2) in t1.modules.iter().zip(t2.modules.iter()) {
        assert_eq!(m1.module, m2.module);
        assert_eq!(m1.offsets.num_entries(), m2.offsets.num_entries());
        for i in 0..m1.offsets.num_entries() {
            assert_eq!(m1.offsets.entry_at(i), m2.offsets.entry_at(i));
        }
    }
}
