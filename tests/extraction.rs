use header2svd::assemble::assemble;
use header2svd::extract::{
    add_base_addr, base_definitions, extract_interrupts, interrupts_from, normalize, process_file, HeaderError, Report,
};
use header2svd::model::{BitField, Bits, Peripheral, Register, Type};
use header2svd::registry::Registry;
use header2svd::scan::{classify, step, Emit, State};

fn run(files: &[(&str, &str)]) -> (Registry, Report) {
    let mut reg = Registry::new();
    let mut report = Report::new();
    for (name, text) in files {
        process_file(name, text, &mut reg, &mut report).unwrap();
    }
    (reg, report)
}

#[test]
fn normalizer_is_idempotent_on_normal_text() {
    let text = "#define PERIPHS_IO_MUX_BASE 0x60000800\n#define UART_CONF0_REG 0x20\n";
    let once = normalize(text);
    assert_eq!(once, text);
    assert_eq!(normalize(&once), once);
}

#[test]
fn normalizer_rewrites_known_spellings() {
    assert_eq!(normalize("#define PERIPHS_IO_MUX 0x60000800"), "#define PERIPHS_IO_MUX_BASE 0x60000800");
    assert_eq!(normalize("SLC_CONF0"), "SLC_CONF0_REG");
    assert_eq!(normalize("RTC_STATE1 x"), "RTC_STATE1_REG x");
}

#[test]
fn base_address_first_definition_wins() {
    let mut reg = Registry::new();
    add_base_addr("#define DR_REG_FOO_BASE 0x60000200\n", &mut reg).unwrap();
    add_base_addr("#define DR_REG_FOO_BASE 0x60000300\n", &mut reg).unwrap();
    let p = reg.get("FOO").unwrap();
    assert_eq!(p.address, 0x60000200);
    assert_eq!(p.description, "FOO");
    assert_eq!(reg.len(), 1);
}

#[test]
fn base_address_that_overflows_is_fatal() {
    let mut reg = Registry::new();
    let r = add_base_addr("#define DR_REG_FOO_BASE 0x123456789\n", &mut reg);
    assert!(matches!(r, Err(HeaderError::BadBaseAddress(_))));
    assert_eq!(reg.len(), 0);
}

#[test]
fn single_bit_field_without_shift() {
    let text = "#define DR_REG_FOO_BASE 0x60000200\n#define FOO_CTRL_REG (DR_REG_FOO_BASE + 0x0040)\n#define FOO_FLAG (BIT(3))\n\n/* end */\n";
    let (reg, _) = run(&[("foo_register.h", text)]);
    let p = reg.get("FOO").unwrap();
    assert_eq!(p.registers.len(), 1);
    let r = &p.registers[0];
    assert_eq!(r.name, "FOO_CTRL");
    assert_eq!(r.address, 0x40);
    assert_eq!(r.width, 32);
    assert_eq!(r.description, "FOO_CTRL");
    assert_eq!(r.bit_fields.len(), 1);
    assert_eq!(r.bit_fields[0].name, "FOO_FLAG");
    assert_eq!(r.bit_fields[0].bits, Bits::Single(3));
}

#[test]
fn mask_and_shift_field() {
    let text = "#define DR_REG_FOO_BASE 0x60000200\n#define FOO_CONF_REG (DR_REG_FOO_BASE + 0x10)\n#define FOO_LEN 0x7\n#define FOO_LEN_S 8\n\n/* end */\n";
    let (reg, _) = run(&[("foo_register.h", text)]);
    let r = &reg.get("FOO").unwrap().registers[0];
    assert_eq!(r.address, 0x10);
    assert_eq!(r.bit_fields.len(), 1);
    assert_eq!(r.bit_fields[0].name, "FOO_LEN");
    assert_eq!(r.bit_fields[0].bits, Bits::Range(8, 10));
    assert_eq!(r.bit_fields[0].type_, Type::ReadWrite);
}

#[test]
fn mask_of_one_bit_gives_single_bit() {
    let text = "#define DR_REG_FOO_BASE 0x60000200\n#define FOO_CONF_REG (DR_REG_FOO_BASE + 0x10)\n#define FOO_EN 0x1\n#define FOO_EN_S 5\n\n/* end */\n";
    let (reg, _) = run(&[("foo_register.h", text)]);
    let r = &reg.get("FOO").unwrap().registers[0];
    assert_eq!(r.bit_fields[0].bits, Bits::Single(5));
}

#[test]
fn register_without_layout_spans_all_bits() {
    let text = "#define DR_REG_FOO_BASE 0x60000200\n#define FOO_DATA_REG (DR_REG_FOO_BASE + 0x8)\n\n";
    let (reg, report) = run(&[("foo_register.h", text)]);
    let r = &reg.get("FOO").unwrap().registers[0];
    assert_eq!(r.bit_fields.len(), 1);
    assert_eq!(r.bit_fields[0].name, "Register");
    assert_eq!(r.bit_fields[0].bits, Bits::Range(0, 31));
    assert!(report.empty_files.is_empty());
}

#[test]
fn indexed_register_is_rejected() {
    let text = "#define I2C_CTRL_REG(i) (REG_I2C_BASE(i) + 0x0000)\n\n";
    let (reg, report) = run(&[("i2c_register.h", text)]);
    assert_eq!(reg.len(), 0);
    assert_eq!(report.rejected_registers, vec!["I2C_CTRL".to_string()]);
    assert_eq!(report.empty_files, vec!["i2c_register.h".to_string()]);
}

#[test]
fn unknown_peripheral_is_reported_and_others_kept() {
    let a = "#define DR_REG_GPIO_BASE 0x3FF00000\n";
    let b = "#define BAR_CTRL_REG (DR_REG_BAR_BASE + 0x0)\n\n#define GPIO_OUT_REG_ADDRESS 0x4\n\n";
    let (reg, report) = run(&[("a.h", a), ("b_register.h", b)]);
    assert_eq!(report.unresolved_peripherals, vec!["BAR".to_string()]);
    assert!(reg.get("BAR").is_none());
    let out = assemble(reg);
    assert_eq!(out.len(), 1);
    assert_eq!(out[0].name, "GPIO");
    assert_eq!(out[0].registers.len(), 1);
}

#[test]
fn end_to_end_gpio() {
    let a = "#define DR_REG_GPIO_BASE 0x3FF00000\n";
    let b = "#define GPIO_OUT_REG_ADDRESS 0x4\n\n";
    let (reg, _) = run(&[("a.h", a), ("gpio_register.h", b)]);
    let out = assemble(reg);
    assert_eq!(out.len(), 1);
    let p = &out[0];
    assert_eq!(p.name, "GPIO");
    assert_eq!(p.base_address, 0x3FF00000);
    assert_eq!(p.block_offset, 0);
    assert_eq!(p.block_size, 32);
    assert_eq!(p.registers.len(), 1);
    let r = &p.registers[0];
    assert_eq!(r.name, "GPIO_OUT_REG");
    assert_eq!(r.address_offset, 0x4);
    assert_eq!(r.size, 32);
    assert_eq!(r.fields.len(), 1);
    assert_eq!(r.fields[0].offset, 0);
    assert_eq!(r.fields[0].width, 32);
    assert_eq!(r.fields[0].description, None);
}

#[test]
fn assembly_is_deterministic_and_sorted() {
    let text = "#define DR_REG_UART_BASE 0x60000000\n#define DR_REG_GPIO_BASE 0x60000300\n#define DR_REG_AES_BASE 0x60000100\n";
    let (r1, _) = run(&[("soc.h", text)]);
    let (r2, _) = run(&[("soc.h", text)]);
    let a = assemble(r1);
    let b = assemble(r2);
    let names: Vec<&str> = a.iter().map(|p| p.name.as_str()).collect();
    assert_eq!(names, vec!["AES", "GPIO", "UART"]);
    assert_eq!(a.len(), b.len());
    for (x, y) in a.iter().zip(b.iter()) {
        assert_eq!(x.name, y.name);
        assert_eq!(x.base_address, y.base_address);
        assert_eq!(x.block_size, y.block_size);
    }
}

#[test]
fn directive_lines_are_skipped_but_bodies_scanned() {
    let text = "#define DR_REG_FOO_BASE 0x60000200\n#ifdef CONFIG_X\n#define FOO_A_REG (DR_REG_FOO_BASE + 0x4)\n#endif\n\n";
    let (reg, _) = run(&[("foo_register.h", text)]);
    let r = &reg.get("FOO").unwrap().registers[0];
    assert_eq!(r.name, "FOO_A");
    assert_eq!(r.bit_fields[0].bits, Bits::Range(0, 31));
}

#[test]
fn offset_register_uses_first_token_as_peripheral() {
    let text = "#define DR_REG_UART_BASE 0x60000000\n#define UART_FIFO_ADDRESS 0x0\n#define UART_CONF_ADDRESS 0x20\n\n";
    let (reg, _) = run(&[("uart_register.h", text)]);
    let p = reg.get("UART").unwrap();
    assert_eq!(p.registers.len(), 2);
    assert_eq!(p.registers[0].name, "UART_FIFO");
    assert_eq!(p.registers[1].name, "UART_CONF");
    assert_eq!(p.registers[1].address, 0x20);
}

#[test]
fn step_opens_register_and_stops_on_bad_offset() {
    let f = classify("#define FOO_X_REG (DR_REG_FOO_BASE + zz)");
    let st = step(State::FindReg, &f);
    assert!(st.consumed);
    assert!(matches!(st.emit, Emit::Fatal(ref n) if n == "FOO_X"));
    let f = classify("#define FOO_X_REG (DR_REG_FOO_BASE + 0x1C)");
    let st = step(State::FindReg, &f);
    match st.next {
        State::FindBitFieldMask(p, r) => {
            assert_eq!(p, "FOO");
            assert_eq!(r.address, 0x1c);
        }
        _ => panic!("no register opened"),
    }
}

#[test]
fn bad_register_offset_is_fatal_and_changes_nothing() {
    let mut reg = Registry::new();
    let mut report = Report::new();
    let text = "#define DR_REG_FOO_BASE 0x60000200\n#define FOO_A_REG (DR_REG_FOO_BASE + 0x4)\n\n#define FOO_B_REG (DR_REG_FOO_BASE + zz)\n\n";
    let r = process_file("foo_register.h", text, &mut reg, &mut report);
    assert!(matches!(r, Err(HeaderError::BadOffset(ref n)) if n == "FOO_B"));
    assert_eq!(reg.len(), 0);
    assert!(report.empty_files.is_empty());
    assert!(report.rejected_registers.is_empty());
}

#[test]
fn offset_only_register_that_overflows_is_fatal() {
    let mut reg = Registry::new();
    let mut report = Report::new();
    let r = process_file("x.h", "#define FOO_X_ADDRESS 0x123456789\n", &mut reg, &mut report);
    assert!(matches!(r, Err(HeaderError::BadOffset(ref n)) if n == "FOO_X"));
}

#[test]
fn single_bit_past_31_is_a_rejected_field() {
    let text = "#define REG_FOO_BASE 0x60000200\n#define FOO_CTRL_REG (REG_FOO_BASE + 0x0040)\n#define FOO_BIG (BIT(40))\n\n\n";
    let (reg, report) = run(&[("foo_register.h", text)]);
    assert_eq!(report.rejected_fields, vec!["FOO_BIG".to_string()]);
    assert!(reg.get("FOO").unwrap().registers.is_empty());
}

#[test]
fn shift_that_does_not_fit_is_a_rejected_field() {
    let text = "#define REG_FOO_BASE 0x60000200\n#define FOO_CTRL_REG (REG_FOO_BASE + 0x0040)\n#define FOO_LEN 0xFF\n#define FOO_LEN_S 30\n\n\n";
    let (_, report) = run(&[("foo_register.h", text)]);
    assert_eq!(report.rejected_fields, vec!["FOO_LEN".to_string()]);
}

#[test]
fn single_bit_field_two_blank_lines() {
    let text = "#define REG_FOO_BASE 0x60000200\n#define FOO_CTRL_REG (REG_FOO_BASE + 0x0040)\n#define FOO_FLAG (BIT(3))\n\n\n";
    let (reg, _) = run(&[("foo_register.h", text)]);
    let rs = &reg.get("FOO").unwrap().registers;
    assert_eq!(rs.len(), 1);
    assert_eq!(rs[0].address, 0x40);
    assert_eq!(rs[0].bit_fields.len(), 1);
    assert_eq!(rs[0].bit_fields[0].name, "FOO_FLAG");
    assert_eq!(rs[0].bit_fields[0].bits, Bits::Single(3));
}

#[test]
fn mask_shift_field_has_default_attributes() {
    let text = "#define REG_FOO_BASE 0x60000200\n#define FOO_CTRL_REG (REG_FOO_BASE + 0x0040)\n#define FOO_LEN 0x7\n#define FOO_LEN_S 8\n\n\n";
    let (reg, _) = run(&[("foo_register.h", text)]);
    let rs = &reg.get("FOO").unwrap().registers;
    assert_eq!(rs.len(), 1);
    let f = &rs[0].bit_fields;
    assert_eq!(f.len(), 1);
    assert_eq!(f[0].name, "FOO_LEN");
    assert_eq!(f[0].bits, Bits::Range(8, 10));
    assert_eq!(f[0].type_, Type::ReadWrite);
    assert_eq!(f[0].reset_value, 0);
    assert_eq!(f[0].description, "");
}

#[test]
fn offset_only_register_then_blank_spans_all_bits() {
    let text = "#define REG_FOO_BASE 0x60000200\n#define FOO_CTRL_ADDRESS 0x40\n\n";
    let (reg, _) = run(&[("foo_register.h", text)]);
    let rs = &reg.get("FOO").unwrap().registers;
    assert_eq!(rs.len(), 1);
    assert_eq!(rs[0].address, 0x40);
    assert_eq!(rs[0].bit_fields.len(), 1);
    assert_eq!(rs[0].bit_fields[0].name, "Register");
    assert_eq!(rs[0].bit_fields[0].bits, Bits::Range(0, 31));
}

#[test]
fn unknown_peripheral_leaves_others_as_without_it() {
    let soc = "#define REG_FOO_BASE 0x60000200\n";
    let with = "#define FOO_A_REG (REG_FOO_BASE + 0x4)\n\n#define BAR_CTRL_ADDRESS 0x10\n\n";
    let without = "#define FOO_A_REG (REG_FOO_BASE + 0x4)\n\n";
    let (r1, rep1) = run(&[("eagle_soc.h", soc), ("foo_register.h", with)]);
    let (r2, rep2) = run(&[("eagle_soc.h", soc), ("foo_register.h", without)]);
    assert_eq!(rep1.unresolved_peripherals, vec!["BAR".to_string()]);
    assert!(rep2.unresolved_peripherals.is_empty());
    assert!(r1.get("BAR").is_none());
    let a = assemble(r1);
    let b = assemble(r2);
    assert_eq!(a.len(), b.len());
    assert_eq!(a[0].name, b[0].name);
    assert_eq!(a[0].registers.len(), b[0].registers.len());
    assert_eq!(a[0].registers[0].name, b[0].registers[0].name);
    assert_eq!(a[0].block_size, b[0].block_size);
}

#[test]
fn end_to_end_gpio_plain_register_form() {
    // The plain form names the register by what precedes `_REG`.
    let a = "#define PERIPHS_GPIO_BASEADDR 0x3FF00000\n";
    let b = "#define GPIO_OUT_REG (PERIPHS_GPIO_BASEADDR + 0x4)\n\n";
    let (reg, _) = run(&[("eagle_soc.h", a), ("gpio_register.h", b)]);
    let out = assemble(reg);
    assert_eq!(out.len(), 1);
    assert_eq!(out[0].name, "GPIO");
    assert_eq!(out[0].base_address, 0x3FF00000);
    assert_eq!(out[0].registers.len(), 1);
    assert_eq!(out[0].registers[0].name, "GPIO_OUT");
    assert_eq!(out[0].registers[0].address_offset, 0x4);
    assert_eq!((out[0].registers[0].fields[0].offset, out[0].registers[0].fields[0].width), (0, 32));
}

#[test]
fn base_definitions_from_given_matches() {
    let ms = vec![
        vec!["m".to_string(), "FOO".to_string(), "60000200".to_string()],
        vec!["m".to_string(), "BAR".to_string(), "1F".to_string()],
    ];
    let d = base_definitions(&ms).unwrap();
    assert_eq!(d, vec![("FOO".to_string(), 0x60000200), ("BAR".to_string(), 0x1f)]);
    let bad = vec![vec!["m".to_string(), "FOO".to_string(), "123456789".to_string()]];
    assert!(matches!(base_definitions(&bad), Err(HeaderError::BadBaseAddress(_))));
}

#[test]
fn interrupts_from_given_matches() {
    let ms = vec![vec!["m".to_string(), "TIMER1".to_string(), "9".to_string(), "timer".to_string()]];
    let v = interrupts_from(&ms).unwrap();
    assert_eq!(v.len(), 1);
    assert_eq!(v[0].name, "TIMER1");
    assert_eq!(v[0].value, 9);
    assert_eq!(v[0].description.as_deref(), Some("timer"));
    let bad = vec![vec!["m".to_string(), "X".to_string(), "4294967296".to_string(), "x".to_string()]];
    assert!(matches!(interrupts_from(&bad), Err(HeaderError::BadInterruptNumber(_))));
}

#[test]
fn interrupts_are_extracted() {
    let text = "#define ETS_WIFI_MAC_SOURCE 0/**< interrupt of WiFi MAC, level*/\n#define ETS_SLC_SOURCE 1/**< interrupt of SLC, level*/\n";
    let v = extract_interrupts(text).unwrap();
    assert_eq!(v.len(), 2);
    assert_eq!(v[0].name, "WIFI_MAC");
    assert_eq!(v[0].value, 0);
    assert_eq!(v[0].description.as_deref(), Some("interrupt of WiFi MAC, level"));
    assert_eq!(v[1].name, "SLC");
    assert_eq!(v[1].value, 1);
}

#[test]
fn interrupt_number_overflow_is_fatal() {
    let text = "#define ETS_X_SOURCE 99999999999/**< x*/\n";
    assert!(matches!(extract_interrupts(text), Err(HeaderError::BadInterruptNumber(_))));
}

#[test]
fn registry_override_replaces_registers() {
    let mut reg = Registry::new();
    reg.seed("TIMER", 0x60000600);
    let mut r = Register::stub("FRC1_LOAD", 0);
    r.push_field(BitField::plain("LOAD".to_string(), Bits::Range(0, 22)));
    assert!(reg.set_registers("TIMER", vec![r]));
    assert!(!reg.set_registers("NOPE", vec![]));
    let p = reg.get("TIMER").unwrap();
    assert_eq!(p.address, 0x60000600);
    assert_eq!(p.registers.len(), 1);
    reg.insert(
        "UART0".to_string(),
        Peripheral { description: "uart".to_string(), address: 0x60000000, registers: vec![] },
    );
    let out = assemble(reg);
    assert_eq!(out[0].name, "TIMER");
    assert_eq!(out[0].registers[0].fields[0].offset, 0);
    assert_eq!(out[0].registers[0].fields[0].width, 23);
    assert_eq!(out[1].name, "UART0");
    assert_eq!(out[1].block_size, 0);
}

#[test]
fn field_description_kept_unless_blank() {
    let mut reg = Registry::new();
    reg.seed("P", 0);
    let mut r = Register::stub("R", 4);
    let mut f = BitField::plain("A".to_string(), Bits::Single(7));
    f.description = "enable".to_string();
    r.push_field(f);
    let mut g = BitField::plain("B".to_string(), Bits::Range(1, 2));
    g.description = "  \t".to_string();
    r.push_field(g);
    r.reset_value = 0x1_0000_0005;
    reg.push_register("P", r);
    let out = assemble(reg);
    let rd = &out[0].registers[0];
    assert_eq!(rd.reset_value, 5);
    assert_eq!(rd.description, "R");
    assert_eq!(rd.fields[0].description.as_deref(), Some("enable"));
    assert_eq!((rd.fields[0].offset, rd.fields[0].width), (7, 1));
    assert_eq!(rd.fields[1].description, None);
    assert_eq!((rd.fields[1].offset, rd.fields[1].width), (1, 2));
}
