use toggy::config::{first_fault, file_body, Config, ConfigError, IniSection};
use toggy::text::{chars_of, parse_hotkey, parse_player_count, parse_unsigned_from};

fn reloaded_from(text: &str) -> Result<Config, ConfigError> {
    let mut config = Config::new();
    config.try_reload(text.as_bytes()).map(|_| config)
}

#[test]
fn new_has_built_in_settings() {
    let c = Config::new();
    assert_eq!(c.hotkey, 192);
    assert_eq!(c.lower_players, 1);
    assert_eq!(c.upper_players, 8);
}

#[test]
fn reload_reads_all_three_settings() {
    let c = reloaded_from("[TOGGLE PLAYERS]\nhotkey=0x7A\nlower_players=3\nupper_players=5\n").unwrap();
    assert_eq!(c, Config { hotkey: 0x7A, lower_players: 3, upper_players: 5 });
}

#[test]
fn reload_trims_spaces_around_keys_and_values() {
    let c = reloaded_from("[ TOGGLE PLAYERS ]\n hotkey = 0x20 \nupper_players : 7\n").unwrap();
    assert_eq!(c, Config { hotkey: 0x20, lower_players: 1, upper_players: 7 });
}

#[test]
fn reload_strips_repeated_hex_prefixes() {
    let c = reloaded_from("[TOGGLE PLAYERS]\nhotkey=0x0xC0\n").unwrap();
    assert_eq!(c.hotkey, 0xC0);
    let c = reloaded_from("[TOGGLE PLAYERS]\nhotkey=ff\n").unwrap();
    assert_eq!(c.hotkey, 0xFF);
}

#[test]
fn reload_keeps_unset_values() {
    let mut c = Config { hotkey: 1, lower_players: 2, upper_players: 3 };
    c.reload(b"[TOGGLE PLAYERS]\nlower_players=4\n");
    assert_eq!(c, Config { hotkey: 1, lower_players: 4, upper_players: 3 });
}

#[test]
fn reload_last_value_wins() {
    let text = "[TOGGLE PLAYERS]\nlower_players=2\n[OTHER]\nlower_players=9\n[TOGGLE PLAYERS]\nlower_players=6\nlower_players=7\n";
    let c = reloaded_from(text).unwrap();
    assert_eq!(c.lower_players, 7);
    assert_eq!(c.upper_players, 8);
}

#[test]
fn reload_ignores_other_sections_and_keys() {
    let c = reloaded_from("[OTHER]\nhotkey=zz\n[TOGGLE PLAYERS]\ncolour=blue\n").unwrap();
    assert_eq!(c, Config::new());
}

#[test]
fn reload_twice_is_reload_once() {
    let text = b"[TOGGLE PLAYERS]\nhotkey=41\nupper_players=2\nupper_players=6\n";
    let mut once = Config::new();
    once.reload(text);
    let mut twice = Config::new();
    twice.reload(text);
    twice.reload(text);
    assert_eq!(once, twice);
    assert_eq!(once, Config { hotkey: 0x41, lower_players: 1, upper_players: 6 });
}

#[test]
fn reload_skips_byte_order_mark() {
    let mut bytes = vec![0xEF, 0xBB, 0xBF];
    bytes.extend_from_slice(b"[TOGGLE PLAYERS]\nupper_players=4\n");
    let mut c = Config::new();
    assert_eq!(c.try_reload(&bytes), Ok(()));
    assert_eq!(c.upper_players, 4);
    assert_eq!(file_body(&bytes), b"[TOGGLE PLAYERS]\nupper_players=4\n");
    assert_eq!(file_body(b"ab"), b"ab");
}

#[test]
fn reload_rejects_non_utf8() {
    let mut c = Config::new();
    assert_eq!(c.try_reload(&[0x5B, 0xFF, 0x5D]), Err(ConfigError::NotUtf8));
    assert_eq!(c, Config::new());
}

#[test]
fn reload_rejects_syntax_errors() {
    assert_eq!(reloaded_from("[TOGGLE PLAYERS"), Err(ConfigError::Syntax));
    assert_eq!(reloaded_from("[TOGGLE PLAYERS]\n=5\n"), Err(ConfigError::Syntax));
}

#[test]
fn reload_rejects_entries_before_any_section() {
    assert_eq!(reloaded_from("x=1\n[TOGGLE PLAYERS]\nhotkey=20\n"), Err(ConfigError::UnnamedSection));
}

#[test]
fn reload_rejects_bad_values_and_keeps_settings() {
    let mut c = Config { hotkey: 5, lower_players: 6, upper_players: 7 };
    assert_eq!(c.try_reload(b"[TOGGLE PLAYERS]\nlower_players=2\nhotkey=0xG\n"), Err(ConfigError::BadHotkey));
    assert_eq!(c, Config { hotkey: 5, lower_players: 6, upper_players: 7 });
    assert_eq!(c.try_reload(b"[TOGGLE PLAYERS]\nupper_players=256\n"), Err(ConfigError::BadPlayerCount));
    assert_eq!(c.try_reload(b"[TOGGLE PLAYERS]\nlower_players=-1\n"), Err(ConfigError::BadPlayerCount));
}

#[test]
fn first_fault_is_the_earliest() {
    let sections = vec![
        IniSection { name: Some("TOGGLE PLAYERS".to_string()), entries: vec![("upper_players".to_string(), "x".to_string())] },
        IniSection { name: None, entries: vec![] },
    ];
    assert_eq!(first_fault(&sections), Some(ConfigError::BadPlayerCount));
    let sections = vec![
        IniSection { name: None, entries: vec![] },
        IniSection { name: Some("TOGGLE PLAYERS".to_string()), entries: vec![("hotkey".to_string(), "".to_string())] },
    ];
    assert_eq!(first_fault(&sections), Some(ConfigError::UnnamedSection));
}

#[test]
fn apply_sections_applies_only_the_settings_section() {
    let sections = vec![
        IniSection { name: Some("toggle players".to_string()), entries: vec![("hotkey".to_string(), "10".to_string())] },
        IniSection { name: Some("TOGGLE PLAYERS".to_string()), entries: vec![("hotkey".to_string(), "0x11".to_string())] },
    ];
    assert_eq!(first_fault(&sections), None);
    let mut c = Config::new();
    c.apply_sections(&sections);
    assert_eq!(c.hotkey, 0x11);
}

#[test]
fn hotkey_parsing() {
    assert_eq!(parse_hotkey("C0"), Some(0xC0));
    assert_eq!(parse_hotkey("0xc0"), Some(0xC0));
    assert_eq!(parse_hotkey("+1f"), Some(0x1F));
    assert_eq!(parse_hotkey("FFFFFFFF"), Some(u32::MAX));
    assert_eq!(parse_hotkey("100000000"), None);
    assert_eq!(parse_hotkey("0x"), None);
    assert_eq!(parse_hotkey("00x5"), None);
    assert_eq!(parse_hotkey(""), None);
    assert_eq!(parse_hotkey("+"), None);
    assert_eq!(parse_hotkey("-1"), None);
    assert_eq!(parse_hotkey(" 1"), None);
}

#[test]
fn player_count_parsing() {
    assert_eq!(parse_player_count("0"), Some(0));
    assert_eq!(parse_player_count("+8"), Some(8));
    assert_eq!(parse_player_count("255"), Some(255));
    assert_eq!(parse_player_count("0255"), Some(255));
    assert_eq!(parse_player_count("256"), None);
    assert_eq!(parse_player_count("a"), None);
    assert_eq!(parse_player_count("++1"), None);
    assert_eq!(parse_player_count("٣"), None);
}

#[test]
fn unsigned_parsing_from_an_offset() {
    let chars = chars_of("x+123");
    assert_eq!(parse_unsigned_from(&chars, 1, 10, 1000), Some(123));
    assert_eq!(parse_unsigned_from(&chars, 1, 10, 122), None);
    assert_eq!(parse_unsigned_from(&chars, 5, 10, 1000), None);
    assert_eq!(chars, vec!['x', '+', '1', '2', '3']);
}
