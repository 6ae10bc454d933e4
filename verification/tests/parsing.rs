use cmsis_pack::attrs::{parse_hex, parse_number_bool, parse_u8};
use cmsis_pack::error::ParseError;
use cmsis_pack::memory::{MemElem, MemoryPermissions};
use cmsis_pack::proc::{Core, FPU, MPU};
use cmsis_pack::xml::XmlElement;

fn elem(name: &str, attrs: &[(&str, &str)]) -> XmlElement {
    XmlElement {
        name: name.to_string(),
        attrs: attrs
            .iter()
            .map(|(k, v)| (k.to_string(), v.to_string()))
            .collect(),
        children: Vec::new(),
    }
}

#[test]
fn hex_with_prefix() {
    assert_eq!(parse_hex("0x100000"), Some(0x100000));
    assert_eq!(parse_hex("0X20"), Some(0x20));
}

#[test]
fn hex_without_prefix_is_still_hex() {
    assert_eq!(parse_hex("100"), Some(0x100));
    assert_eq!(parse_hex("dead"), Some(0xdead));
    assert_eq!(parse_hex("DEAD"), Some(0xdead));
}

#[test]
fn hex_rejects_garbage() {
    assert_eq!(parse_hex(""), None);
    assert_eq!(parse_hex("0x"), None);
    assert_eq!(parse_hex("0xzz"), None);
    assert_eq!(parse_hex("12g4"), None);
}

#[test]
fn hex_bounds() {
    assert_eq!(parse_hex("0xFFFFFFFFFFFFFFFF"), Some(u64::MAX));
    assert_eq!(parse_hex("0x10000000000000000"), None);
}

#[test]
fn units_parse() {
    assert_eq!(parse_u8("1"), Some(1));
    assert_eq!(parse_u8("255"), Some(255));
    assert_eq!(parse_u8("256"), None);
    assert_eq!(parse_u8(""), None);
    assert_eq!(parse_u8("2x"), None);
}

#[test]
fn number_bool_values() {
    assert_eq!(parse_number_bool("true"), Some(true));
    assert_eq!(parse_number_bool("1"), Some(true));
    assert_eq!(parse_number_bool("false"), Some(false));
    assert_eq!(parse_number_bool("0"), Some(false));
    assert_eq!(parse_number_bool("yes"), None);
}

#[test]
fn core_names() {
    assert_eq!(Core::from_str("Cortex-M4"), Some(Core::CortexM4));
    assert_eq!(Core::from_str("Cortex-M0+"), Some(Core::CortexM0Plus));
    assert_eq!(Core::from_str("ARMV8MML"), Some(Core::ARMV8MML));
    assert_eq!(Core::from_str("Cortex-A73"), Some(Core::CortexA73));
    assert_eq!(Core::from_str("Cortex-Z1"), None);
}

#[test]
fn fpu_names() {
    assert_eq!(FPU::from_str("FPU"), Some(FPU::SinglePrecision));
    assert_eq!(FPU::from_str("SP_FPU"), Some(FPU::SinglePrecision));
    assert_eq!(FPU::from_str("1"), Some(FPU::SinglePrecision));
    assert_eq!(FPU::from_str("None"), Some(FPU::NotPresent));
    assert_eq!(FPU::from_str("0"), Some(FPU::NotPresent));
    assert_eq!(FPU::from_str("DP_FPU"), Some(FPU::DoublePrecision));
    assert_eq!(FPU::from_str("2"), Some(FPU::DoublePrecision));
    assert_eq!(FPU::from_str("3"), None);
}

#[test]
fn mpu_names() {
    assert_eq!(MPU::from_str("MPU"), Some(MPU::Present));
    assert_eq!(MPU::from_str("1"), Some(MPU::Present));
    assert_eq!(MPU::from_str("None"), Some(MPU::NotPresent));
    assert_eq!(MPU::from_str("0"), Some(MPU::NotPresent));
    assert_eq!(MPU::from_str("mpu"), None);
}

#[test]
fn access_bag_rwxpsn() {
    let p = MemoryPermissions::from_str("rwxpsn");
    assert!(p.read);
    assert!(p.write);
    assert!(p.execute);
    assert!(p.peripheral);
    assert!(p.secure);
    assert!(p.non_secure);
    assert!(!p.non_secure_callable);
}

#[test]
fn access_bag_ignores_unknown() {
    let p = MemoryPermissions::from_str("zrq!c");
    assert!(p.read);
    assert!(p.non_secure_callable);
    assert!(!p.write);
    assert!(!p.execute);
}

#[test]
fn access_inferred_from_ram_id() {
    let e = elem(
        "memory",
        &[("id", "IRAM1"), ("start", "0x20000000"), ("size", "0x10000")],
    );
    let MemElem(name, mem) = MemElem::from_elem(&e).unwrap();
    assert_eq!(name, "IRAM1");
    assert!(mem.access.read);
    assert!(mem.access.write);
    assert!(!mem.access.execute);
    assert_eq!(mem.start, 0x20000000);
    assert_eq!(mem.size, 0x10000);
    assert!(!mem.startup);
    assert!(!mem.default);
}

#[test]
fn access_inferred_from_rom_id() {
    let e = elem(
        "memory",
        &[("id", "IROM1"), ("start", "0x08000000"), ("size", "0x100000")],
    );
    let MemElem(_, mem) = MemElem::from_elem(&e).unwrap();
    assert!(mem.access.read);
    assert!(!mem.access.write);
    assert!(mem.access.execute);
}

#[test]
fn access_inferred_empty_for_other_id() {
    let e = elem("memory", &[("id", "X1"), ("start", "0x0"), ("size", "0x1")]);
    let MemElem(_, mem) = MemElem::from_elem(&e).unwrap();
    assert!(!mem.access.read);
    assert!(!mem.access.write);
    assert!(!mem.access.execute);
}

#[test]
fn access_attribute_wins_over_id() {
    let e = elem(
        "memory",
        &[("access", "rx"), ("id", "IRAM1"), ("start", "0"), ("size", "1")],
    );
    let MemElem(_, mem) = MemElem::from_elem(&e).unwrap();
    assert!(mem.access.read);
    assert!(mem.access.execute);
    assert!(!mem.access.write);
}

#[test]
fn memory_startup_and_default_flags() {
    let e = elem(
        "memory",
        &[
            ("id", "IROM1"),
            ("start", "0x0"),
            ("size", "0x100"),
            ("startup", "1"),
            ("default", "true"),
        ],
    );
    let MemElem(_, mem) = MemElem::from_elem(&e).unwrap();
    assert!(mem.startup);
    assert!(mem.default);
}

#[test]
fn access_defaults_to_empty_without_id() {
    // no access attribute and no id: the region keeps its name and
    // permits nothing, rather than being rejected
    let e = elem("memory", &[("name", "M1"), ("start", "0x0"), ("size", "0x40")]);
    let MemElem(name, mem) = MemElem::from_elem(&e).unwrap();
    assert_eq!(name, "M1");
    assert_eq!(mem.access, MemoryPermissions::from_str(""));
    assert_eq!(mem.size, 0x40);
}

#[test]
fn memory_missing_start_is_rejected() {
    let e = elem("memory", &[("id", "IRAM1"), ("size", "0x100")]);
    let err = MemElem::from_elem(&e).unwrap_err();
    assert!(matches!(err, ParseError::MissingAttr(_, _)));
}

#[test]
fn memory_bad_size_is_rejected() {
    let e = elem("memory", &[("id", "IRAM1"), ("start", "0x0"), ("size", "big")]);
    let err = MemElem::from_elem(&e).unwrap_err();
    assert!(matches!(err, ParseError::InvalidAttr(_, _, _)));
}

#[test]
fn algorithm_parses_fields() {
    let e = elem(
        "algorithm",
        &[
            ("name", "Flash/STM32F4xx_1024.FLM"),
            ("start", "0x08000000"),
            ("size", "0x100000"),
            ("RAMstart", "0x20000000"),
            ("RAMsize", "0x10000"),
            ("default", "1"),
        ],
    );
    let a = cmsis_pack::algo::Algorithm::from_elem(&e).unwrap();
    assert_eq!(a.file_name, "Flash/STM32F4xx_1024.FLM");
    assert_eq!(a.start, 0x08000000);
    assert_eq!(a.size, 0x100000);
    assert_eq!(a.ram_start, Some(0x20000000));
    assert_eq!(a.ram_size, Some(0x10000));
    assert!(a.default);
}

#[test]
fn algorithm_without_name_is_rejected() {
    let e = elem("algorithm", &[("start", "0x0"), ("size", "0x1")]);
    assert!(cmsis_pack::algo::Algorithm::from_elem(&e).is_err());
}
