use tmez::system_info::{
    cpu_static_info_from_output, decode_form_factor, decode_memory_type, disk_models_from_output,
    memory_static_info_from, memory_static_info_from_outputs, model_for_mount, parse_cpu_static_info,
    parse_disk_models, CpuStaticInfo, MemoryStaticInfo,
};

#[test]
fn decode_memory_type_codes() {
    assert_eq!(decode_memory_type("20"), "DDR");
    assert_eq!(decode_memory_type("21"), "DDR2");
    assert_eq!(decode_memory_type("24"), "DDR3");
    assert_eq!(decode_memory_type("26"), "DDR4");
    assert_eq!(decode_memory_type("34"), "DDR5");
    assert_eq!(decode_memory_type("0"), "");
    assert_eq!(decode_memory_type(""), "");
    assert_eq!(decode_memory_type("abc"), "");
    assert_eq!(decode_memory_type("+26"), "DDR4");
    assert_eq!(decode_memory_type("27"), "Тип 27");
    assert_eq!(decode_memory_type("99999999999999999999"), "");
}

#[test]
fn decode_form_factor_codes() {
    assert_eq!(decode_form_factor("8"), "DIMM");
    assert_eq!(decode_form_factor("12"), "SODIMM");
    assert_eq!(decode_form_factor("13"), "SRIMM");
    assert_eq!(decode_form_factor("0"), "");
    assert_eq!(decode_form_factor("x"), "");
    assert_eq!(decode_form_factor("9"), "FF 9");
}

#[test]
fn cpu_listing_is_read() {
    let listing = "\r\n\r\nVirtualizationFirmwareEnabled : True\r\nL2CacheSize                   : 4096\r\nL3CacheSize                   : 16384\r\n\r\n\r\n";
    let info: CpuStaticInfo = parse_cpu_static_info(listing);
    assert!(info.virtualization_enabled);
    assert_eq!(info.l2_cache_kb, 4096);
    assert_eq!(info.l3_cache_kb, 16384);
}

#[test]
fn cpu_listing_edge_cases() {
    let info = parse_cpu_static_info("VirtualizationFirmwareEnabled:tRuE\nL2CacheSize: n/a\nOther: 5");
    assert!(info.virtualization_enabled);
    assert_eq!(info.l2_cache_kb, 0);
    assert_eq!(info.l3_cache_kb, 0);
    let info = parse_cpu_static_info("VirtualizationFirmwareEnabled : False\nL3CacheSize : 1\nL3CacheSize : 2");
    assert!(!info.virtualization_enabled);
    assert_eq!(info.l3_cache_kb, 2);
    let info = parse_cpu_static_info("");
    assert!(!info.virtualization_enabled);
    assert_eq!(info.l2_cache_kb, 0);
    // The key is the part before the first colon only.
    let info = parse_cpu_static_info("  L2CacheSize : 12 : 3  ");
    assert_eq!(info.l2_cache_kb, 0);
    let info = parse_cpu_static_info("\u{3000}L2CacheSize\u{a0}:\t512\u{2029}");
    assert_eq!(info.l2_cache_kb, 512);
}

#[test]
fn cpu_output_bytes() {
    let info = cpu_static_info_from_output(Some(b"L2CacheSize : 256\r\nL3CacheSize : 8192\r\n"));
    assert_eq!(info.l2_cache_kb, 256);
    assert_eq!(info.l3_cache_kb, 8192);
    let info = cpu_static_info_from_output(None);
    assert_eq!(info.l3_cache_kb, 0);
    // Invalid UTF-8 elsewhere in the output does not hide a valid line.
    let info = cpu_static_info_from_output(Some(b"Name : \xff\xfe\nL2CacheSize : 64\n"));
    assert_eq!(info.l2_cache_kb, 64);
}

#[test]
fn memory_listings_are_read() {
    let modules = "\r\nSMBIOSMemoryType : 26\r\nSpeed            : 3200\r\nFormFactor       : 12\r\n\r\n";
    let slots = "\r\nMemoryDevices : 4\r\n";
    let count = "  2\r\n";
    let info: MemoryStaticInfo = memory_static_info_from(Some(modules), Some(slots), Some(count));
    assert_eq!(info.memory_type, "DDR4");
    assert_eq!(info.speed_mts, 3200);
    assert_eq!(info.form_factor, "SODIMM");
    assert_eq!(info.slots_total, 4);
    assert_eq!(info.slots_used, 2);
}

#[test]
fn memory_listings_missing() {
    let info = memory_static_info_from(None, None, None);
    assert_eq!(info.memory_type, "");
    assert_eq!(info.speed_mts, 0);
    assert_eq!(info.form_factor, "");
    assert_eq!(info.slots_total, 0);
    assert_eq!(info.slots_used, 0);
    let info = memory_static_info_from(Some("SMBIOSMemoryType : 30"), None, Some("two"));
    assert_eq!(info.memory_type, "Тип 30");
    assert_eq!(info.slots_used, 0);
    let info = memory_static_info_from_outputs(
        Some(b"SMBIOSMemoryType : 34\nFormFactor : 8\n"),
        Some(b"MemoryDevices : 2\n"),
        Some(b"1\n"),
    );
    assert_eq!(info.memory_type, "DDR5");
    assert_eq!(info.form_factor, "DIMM");
    assert_eq!(info.slots_total, 2);
    assert_eq!(info.slots_used, 1);
}

#[test]
fn disk_models_are_read() {
    let listing = "\nC|KINGSTON SA400S37480G\r\nD|WDC WD10JPVX-22JC3T0\n\n  E | Samsung SSD 970 \n|NoLetter\nnobar\nC|Other Model\n";
    let table = parse_disk_models(listing);
    assert_eq!(
        table,
        vec![
            ('C', "Other Model".to_string()),
            ('D', "WDC WD10JPVX-22JC3T0".to_string()),
            ('E', "Samsung SSD 970".to_string()),
        ]
    );
    assert_eq!(model_for_mount(&table, "D:\\"), Some("WDC WD10JPVX-22JC3T0".to_string()));
    assert_eq!(model_for_mount(&table, "C:\\"), Some("Other Model".to_string()));
    assert_eq!(model_for_mount(&table, "Z:\\"), None);
    assert_eq!(model_for_mount(&table, ""), None);
}

#[test]
fn disk_models_from_bytes() {
    let table = disk_models_from_output(Some(b"C|Disk A\nD|Disk B\n"));
    assert_eq!(table, vec![('C', "Disk A".to_string()), ('D', "Disk B".to_string())]);
    assert!(disk_models_from_output(None).is_empty());
    let table = disk_models_from_output(Some(b"C|\xffX\n"));
    assert_eq!(table, vec![('C', "\u{fffd}X".to_string())]);
}

#[test]
fn processor_brand() {
    assert_eq!(tmez::system_info::cpu_brand(Some("  AMD Ryzen 7 5800H  ")), "AMD Ryzen 7 5800H");
    assert_eq!(tmez::system_info::cpu_brand(None), "CPU");
    assert_eq!(tmez::system_info::cpu_brand(Some("   ")), "");
}
