use cmsis_pack::device::{parse_family, Device, DeviceBuilder, Devices};
use cmsis_pack::error::ParseError;
use cmsis_pack::proc::{Core, Processors, FPU, MPU};
use cmsis_pack::xml::XmlElement;

fn elem(name: &str, attrs: &[(&str, &str)], children: Vec<XmlElement>) -> XmlElement {
    XmlElement {
        name: name.to_string(),
        attrs: attrs
            .iter()
            .map(|(k, v)| (k.to_string(), v.to_string()))
            .collect(),
        children,
    }
}

fn one_device(mut v: Vec<Device>) -> Device {
    assert_eq!(v.len(), 1);
    v.pop().unwrap()
}

#[test]
fn symmetric_inheritance_fills_holes() {
    // family provides core and fpu, the device adds the mpu
    let family = elem(
        "family",
        &[("Dfamily", "F")],
        vec![
            elem("processor", &[("Dcore", "Cortex-M4"), ("Dfpu", "SP_FPU")], vec![]),
            elem(
                "device",
                &[("Dname", "D1")],
                vec![elem("processor", &[("Dmpu", "MPU")], vec![])],
            ),
        ],
    );
    let d = one_device(parse_family(&family));
    assert_eq!(d.name, "D1");
    match &d.processor {
        Processors::Symmetric(p) => {
            assert_eq!(p.core, Core::CortexM4);
            assert_eq!(p.fpu, FPU::SinglePrecision);
            assert_eq!(p.mpu, MPU::Present);
            assert_eq!(p.units, 1);
        }
        Processors::Asymmetric(_) => panic!("expected a symmetric processor"),
    }
}

#[test]
fn asymmetric_union_across_levels() {
    let family = elem(
        "family",
        &[],
        vec![
            elem("processor", &[("Pname", "cm0"), ("Dcore", "Cortex-M0")], vec![]),
            elem(
                "device",
                &[("Dname", "D1")],
                vec![elem("processor", &[("Pname", "cm4"), ("Dcore", "Cortex-M4")], vec![])],
            ),
        ],
    );
    let d = one_device(parse_family(&family));
    match &d.processor {
        Processors::Asymmetric(v) => {
            assert_eq!(v.len(), 2);
            let cm0 = v.iter().find(|(k, _)| k == "cm0").unwrap();
            let cm4 = v.iter().find(|(k, _)| k == "cm4").unwrap();
            assert_eq!(cm0.1.core, Core::CortexM0);
            assert_eq!(cm4.1.core, Core::CortexM4);
        }
        Processors::Symmetric(_) => panic!("expected an asymmetric processor"),
    }
}

#[test]
fn memory_child_wins() {
    let family = elem(
        "family",
        &[],
        vec![
            elem("processor", &[("Dcore", "Cortex-M3")], vec![]),
            elem(
                "memory",
                &[("id", "IRAM1"), ("start", "0x20000000"), ("size", "0x10000")],
                vec![],
            ),
            elem(
                "device",
                &[("Dname", "D1")],
                vec![elem(
                    "memory",
                    &[("id", "IRAM1"), ("start", "0x20000000"), ("size", "0x20000")],
                    vec![],
                )],
            ),
        ],
    );
    let d = one_device(parse_family(&family));
    let m = d.memories.get("IRAM1").unwrap();
    assert_eq!(m.size, 0x20000);
}

#[test]
fn same_level_duplicate_region_first_wins() {
    // two sibling memory elements of one level under the same name:
    // document order decides, and the first one wins
    let family = elem(
        "family",
        &[],
        vec![
            elem("processor", &[("Dcore", "Cortex-M3")], vec![]),
            elem(
                "device",
                &[("Dname", "D1")],
                vec![
                    elem(
                        "memory",
                        &[("id", "IRAM1"), ("start", "0x0"), ("size", "0x100")],
                        vec![],
                    ),
                    elem(
                        "memory",
                        &[("id", "IRAM1"), ("start", "0x0"), ("size", "0x200")],
                        vec![],
                    ),
                ],
            ),
        ],
    );
    let d = one_device(parse_family(&family));
    assert_eq!(d.memories.get("IRAM1").unwrap().size, 0x100);
}

#[test]
fn algorithms_concatenate_parent_first() {
    let family = elem(
        "family",
        &[],
        vec![
            elem("processor", &[("Dcore", "Cortex-M3")], vec![]),
            elem("algorithm", &[("name", "A"), ("start", "0x0"), ("size", "0x1")], vec![]),
            elem("algorithm", &[("name", "B"), ("start", "0x1"), ("size", "0x1")], vec![]),
            elem(
                "device",
                &[("Dname", "D1")],
                vec![elem(
                    "algorithm",
                    &[("name", "C"), ("start", "0x2"), ("size", "0x1")],
                    vec![],
                )],
            ),
        ],
    );
    let d = one_device(parse_family(&family));
    let names: Vec<&str> = d.algorithms.iter().map(|a| a.file_name.as_str()).collect();
    assert_eq!(names, vec!["A", "B", "C"]);
}

#[test]
fn mixed_processor_shapes_drop_the_device() {
    let family = elem(
        "family",
        &[],
        vec![
            elem("processor", &[("Dcore", "Cortex-M0")], vec![]),
            elem(
                "device",
                &[("Dname", "D1")],
                vec![elem("processor", &[("Pname", "cm4"), ("Dcore", "Cortex-M4")], vec![])],
            ),
            elem(
                "device",
                &[("Dname", "D2")],
                vec![elem("processor", &[("Dmpu", "1")], vec![])],
            ),
        ],
    );
    let root = elem("devices", &[], vec![family]);
    let devs = Devices::from_elem(&root);
    // the symmetric/asymmetric conflict drops D1; its sibling stands
    assert!(devs.get("D1").is_none());
    assert!(devs.get("D2").is_some());
}

#[test]
fn missing_core_drops_the_device() {
    let family = elem(
        "family",
        &[],
        vec![elem(
            "device",
            &[("Dname", "D1")],
            vec![elem("processor", &[("Dfpu", "1")], vec![])],
        )],
    );
    let root = elem("devices", &[], vec![family]);
    let devs = Devices::from_elem(&root);
    assert!(devs.get("D1").is_none());
    assert_eq!(devs.0.len(), 0);
}

#[test]
fn variants_become_the_devices() {
    let family = elem(
        "family",
        &[],
        vec![
            elem("processor", &[("Dcore", "Cortex-M7")], vec![]),
            elem(
                "device",
                &[("Dname", "D1")],
                vec![
                    elem("variant", &[("Dvariant", "D1-V1")], vec![]),
                    elem("variant", &[("Dvariant", "D1-V2")], vec![]),
                ],
            ),
        ],
    );
    let v = parse_family(&family);
    let names: Vec<&str> = v.iter().map(|d| d.name.as_str()).collect();
    assert_eq!(names, vec!["D1-V1", "D1-V2"]);
}

#[test]
fn empty_subfamily_is_transparent() {
    let device = |n: &str| {
        elem(
            "device",
            &[("Dname", n)],
            vec![elem("processor", &[("Dcore", "Cortex-M4")], vec![])],
        )
    };
    let with_sub = elem(
        "family",
        &[],
        vec![elem("subFamily", &[("DsubFamily", "S")], vec![device("D1"), device("D2")])],
    );
    let without_sub = elem("family", &[], vec![device("D1"), device("D2")]);
    let a = parse_family(&with_sub);
    let b = parse_family(&without_sub);
    assert_eq!(a.len(), b.len());
    for (x, y) in a.iter().zip(b.iter()) {
        assert_eq!(x.name, y.name);
        match (&x.processor, &y.processor) {
            (Processors::Symmetric(p), Processors::Symmetric(q)) => assert_eq!(p, q),
            _ => panic!("expected symmetric processors on both sides"),
        }
    }
}

#[test]
fn subfamily_contributions_inherit() {
    let family = elem(
        "family",
        &[],
        vec![
            elem("processor", &[("Dcore", "Cortex-M0")], vec![]),
            elem(
                "subFamily",
                &[("DsubFamily", "S")],
                vec![
                    elem(
                        "memory",
                        &[("id", "IROM1"), ("start", "0x0"), ("size", "0x1000")],
                        vec![],
                    ),
                    elem("device", &[("Dname", "D1")], vec![]),
                ],
            ),
        ],
    );
    let d = one_device(parse_family(&family));
    assert!(d.memories.get("IROM1").is_some());
}

#[test]
fn later_family_wins_duplicate_names() {
    let fam = |size: &str| {
        elem(
            "family",
            &[],
            vec![
                elem("processor", &[("Dcore", "Cortex-M3")], vec![]),
                elem(
                    "device",
                    &[("Dname", "D1")],
                    vec![elem(
                        "memory",
                        &[("id", "IRAM1"), ("start", "0x0"), ("size", size)],
                        vec![],
                    )],
                ),
            ],
        )
    };
    let root = elem("devices", &[], vec![fam("0x100"), fam("0x200")]);
    let devs = Devices::from_elem(&root);
    assert_eq!(devs.0.len(), 1);
    let d = devs.get("D1").unwrap();
    assert_eq!(d.memories.get("IRAM1").unwrap().size, 0x200);
}

#[test]
fn malformed_child_is_skipped_not_fatal() {
    let family = elem(
        "family",
        &[],
        vec![
            elem("processor", &[("Dcore", "Cortex-M3")], vec![]),
            // size does not parse: the region is dropped with a warning
            elem("memory", &[("id", "IRAM1"), ("start", "0x0"), ("size", "huge")], vec![]),
            elem("device", &[("Dname", "D1")], vec![]),
        ],
    );
    let d = one_device(parse_family(&family));
    assert_eq!(d.name, "D1");
    assert!(d.memories.get("IRAM1").is_none());
}

#[test]
fn build_reports_missing_name() {
    let b = DeviceBuilder {
        name: None,
        algorithms: Vec::new(),
        memories: cmsis_pack::memory::Memories::new(),
        processor: None,
    };
    assert!(matches!(b.build(), Err(ParseError::MissingName)));
}

#[test]
fn build_reports_missing_processor() {
    let b = DeviceBuilder {
        name: Some("D9".to_string()),
        algorithms: Vec::new(),
        memories: cmsis_pack::memory::Memories::new(),
        processor: None,
    };
    match b.build() {
        Err(ParseError::MissingProcessor(n)) => assert_eq!(n, "D9"),
        other => panic!("expected a missing-processor error, got {:?}", other),
    }
}

#[test]
fn build_reports_missing_core() {
    let e = elem("processor", &[("Dfpu", "1")], vec![]);
    let b = DeviceBuilder {
        name: Some("D9".to_string()),
        algorithms: Vec::new(),
        memories: cmsis_pack::memory::Memories::new(),
        processor: Some(cmsis_pack::proc::ProcessorsBuilder::from_elem(&e)),
    };
    match b.build() {
        Err(ParseError::MissingCore(n)) => assert_eq!(n, "D9"),
        other => panic!("expected a missing-core error, got {:?}", other),
    }
}

#[test]
fn add_parent_reports_merge_conflict() {
    let sym = elem("processor", &[("Dcore", "Cortex-M0")], vec![]);
    let asym = elem("processor", &[("Pname", "a"), ("Dcore", "Cortex-M4")], vec![]);
    let child = DeviceBuilder {
        name: Some("D1".to_string()),
        algorithms: Vec::new(),
        memories: cmsis_pack::memory::Memories::new(),
        processor: Some(cmsis_pack::proc::ProcessorsBuilder::from_elem(&sym)),
    };
    let parent = DeviceBuilder {
        name: None,
        algorithms: Vec::new(),
        memories: cmsis_pack::memory::Memories::new(),
        processor: Some(cmsis_pack::proc::ProcessorsBuilder::from_elem(&asym)),
    };
    assert!(matches!(
        child.add_parent(&parent),
        Err(ParseError::ProcessorMergeConflict)
    ));
}

#[test]
fn multiple_sibling_processors_extend_asymmetric() {
    let family = elem(
        "family",
        &[],
        vec![
            elem("processor", &[("Pname", "a"), ("Dcore", "Cortex-M0")], vec![]),
            elem("processor", &[("Pname", "b"), ("Dcore", "Cortex-M4")], vec![]),
            elem("device", &[("Dname", "D1")], vec![]),
        ],
    );
    let d = one_device(parse_family(&family));
    match &d.processor {
        Processors::Asymmetric(v) => assert_eq!(v.len(), 2),
        Processors::Symmetric(_) => panic!("expected an asymmetric processor"),
    }
}
