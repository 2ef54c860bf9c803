use toggy::game::{get_modules, Module as GameModule};
use toggy::module::{module_slots, Module, ModuleError, ModuleRecord};
use toggy::utils::{decode_text, realign_unchecked};

fn name_buffer(name: &[u8]) -> Vec<i8> {
    let mut buf = vec![0i8; 50];
    for (i, b) in name.iter().enumerate() {
        buf[i] = *b as i8;
    }
    buf
}

fn record(handle: usize, name: &[u8], size: Result<u32, i32>) -> ModuleRecord {
    ModuleRecord { handle, name_buf: name_buffer(name), name_len: name.len() as u32, image_size: size }
}

fn unnamed(handle: usize) -> ModuleRecord {
    ModuleRecord { handle, name_buf: name_buffer(b"stale.dll"), name_len: 0, image_size: Err(6) }
}

#[test]
fn realign_reinterprets_each_byte() {
    assert_eq!(realign_unchecked(&[-1, 65, 0, -128]), vec![255u8, 65, 0, 128]);
    assert_eq!(realign_unchecked(&[]), Vec::<u8>::new());
}

#[test]
fn decode_text_checks_utf8() {
    assert_eq!(decode_text("D2Game.dll".as_bytes()), Some("D2Game.dll".to_string()));
    assert_eq!(decode_text(&[0xC3, 0xA9]), Some("é".to_string()));
    assert_eq!(decode_text(&[0xC3]), None);
}

#[test]
fn find_returns_first_module_with_the_name() {
    let records = vec![
        record(0x1000, b"game.exe", Ok(0x100)),
        unnamed(0x2000),
        record(0x3000, b"D2Game.dll", Ok(0x300)),
        record(0x4000, b"D2Game.dll", Ok(0x400)),
    ];
    let m = Module::find_in_process(&records, "D2Game.dll").unwrap();
    assert_eq!((m.base, m.size), (0x3000, 0x300));
}

#[test]
fn find_reports_missing_module() {
    let records = vec![record(0x1000, b"game.exe", Ok(0x100)), unnamed(0x2000)];
    assert_eq!(Module::find_in_process(&records, "D2Client.dll").unwrap_err(), ModuleError::NotFound);
    assert_eq!(Module::find_in_process(&vec![], "D2Client.dll").unwrap_err(), ModuleError::NotFound);
}

#[test]
fn find_compares_only_the_returned_length() {
    let mut r = record(0x5000, b"D2Client.dllXYZ", Ok(7));
    r.name_len = 12;
    let m = Module::find_in_process(&vec![r], "D2Client.dll").unwrap();
    assert_eq!((m.base, m.size), (0x5000, 7));
}

#[test]
fn find_stops_at_bad_names_and_failed_queries() {
    let records = vec![record(0x1000, &[0xFF, 0x41], Ok(1)), record(0x2000, b"a.dll", Ok(2))];
    assert_eq!(Module::find_in_process(&records, "a.dll").unwrap_err(), ModuleError::NameNotUtf8);
    let records = vec![record(0x1000, b"b.dll", Err(5)), record(0x2000, b"a.dll", Ok(2))];
    assert_eq!(Module::find_in_process(&records, "a.dll").unwrap_err(), ModuleError::Os(5));
}

#[test]
fn get_modules_lists_named_modules_in_order() {
    let records = vec![record(0x1000, b"game.exe", Ok(0x10)), unnamed(0x2000), record(0x3000, b"x.dll", Ok(0x30))];
    let modules: Vec<GameModule> = get_modules(&records).unwrap();
    assert_eq!(modules.len(), 2);
    assert_eq!((modules[0].name.as_str(), modules[0].base, modules[0].size), ("game.exe", 0x1000, 0x10));
    assert_eq!((modules[1].name.as_str(), modules[1].base, modules[1].size), ("x.dll", 0x3000, 0x30));
}

#[test]
fn get_modules_fails_on_first_error() {
    let records = vec![record(0x1000, b"game.exe", Ok(0x10)), record(0x3000, b"x.dll", Err(87))];
    assert_eq!(get_modules(&records).unwrap_err(), ModuleError::Os(87));
    let records = vec![record(0x1000, &[0x80], Ok(0x10))];
    assert_eq!(get_modules(&records).unwrap_err(), ModuleError::NameNotUtf8);
}

#[test]
fn module_slots_divide_the_needed_size() {
    assert_eq!(module_slots(40, 8), (5, 40));
    assert_eq!(module_slots(41, 8), (5, 40));
    assert_eq!(module_slots(3, 4), (0, 0));
}

#[test]
fn fix_offset_adds_to_the_base() {
    let m = Module { base: 0x6F00_0000, size: 0x20_0000 };
    assert_eq!(m.fix_offset(0x111C44), 0x6F11_1C44);
    let g = GameModule { name: "D2Game.dll".to_string(), base: 0x10, size: 0 };
    assert_eq!(g.fix_offset(0x5), 0x15);
}
