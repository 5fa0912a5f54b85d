use public_logs::parsers::game::{
    is_readable, is_readable_log, parse_line, process_game_log, try_process_game_log,
};
use public_logs::parsers::ip_filtering::filter_ips;

fn parsed(line: &str) -> Option<String> {
    assert!(is_readable(line), "not readable: {line}");
    parse_line(line).map(|text| text.into_owned())
}

// The IP addresses are taken out of a whole file before its lines are looked at,
// so the lines below have none.

#[test]
fn access_login_strips_ip_cid_token() {
    // [ts] ACCESS: Login: ckey from <ip>-<cid> || BYOND v<v>
    let line = "[2026-04-30 16:20:42.301] ACCESS: Login: SomeUser from -2548808841 || BYOND v516.1681";
    let out = parse_line(line).expect("Login lines are kept, with IP/CID dropped");
    assert!(!out.contains("2548808841"), "CID survived: {out}");
    assert!(!out.contains("censored"), "no censor placeholder should appear: {out}");
    assert!(out.contains("SomeUser"), "ckey should remain: {out}");
    assert!(out.contains("BYOND v516.1681"), "BYOND version should remain: {out}");
}

#[test]
fn access_logout_kept_verbatim() {
    let line = "[2026-04-30 16:20:42.301] ACCESS: Logout: SomeUser";
    let out = parse_line(line).expect("Logout lines are kept verbatim");
    assert_eq!(out, line);
}

#[test]
fn access_failed_login_dropped() {
    let line = "[2026-04-30 16:20:42.301] ACCESS: Failed Login: someone 1234567890 - blacklisted byond version";
    assert!(parse_line(line).is_none(), "Failed Login should be dropped");
}

#[test]
fn access_forced_disconnect_dropped() {
    let line = "[2026-04-30 16:20:42.301] ACCESS: Forced disconnect: foo 1234567890 - CID randomizer check";
    assert!(parse_line(line).is_none(), "Forced disconnect should be dropped");
}

#[test]
fn access_notice_same_ip_id_dropped() {
    let line = "[2026-04-30 16:20:42.301] ACCESS: Notice: foo has the same ID (1234567890) as bar";
    assert!(parse_line(line).is_none(), "Notice lines should be dropped");
}

#[test]
fn access_afk_dropped() {
    let line = "[2026-04-30 16:20:42.301] ACCESS: AFK: someuser";
    assert!(parse_line(line).is_none(), "AFK lines should be dropped");
}

#[test]
fn admin_private_dropped() {
    let line = "[2026-04-30 16:20:42.301] ADMINPRIVATE: sensitive admin chatter";
    assert!(parse_line(line).is_none(), "ADMINPRIVATE should be dropped");
}

#[test]
fn topic_dropped() {
    let line = "[2026-04-30 16:20:42.301] TOPIC: world.Topic query?key=value";
    assert!(parse_line(line).is_none(), "TOPIC lines should be dropped");
}

#[test]
fn sql_dropped() {
    let line = "[2026-04-30 16:20:42.301] SQL: SELECT * FROM users WHERE id = 1";
    assert!(parse_line(line).is_none(), "SQL lines should be dropped");
}

#[test]
fn empty_line_dropped() {
    assert!(parse_line("").is_none(), "empty lines are dropped");
    assert!(parse_line("   ").is_none(), "whitespace-only lines are dropped");
}

#[test]
fn malformed_dropped() {
    assert!(parse_line("no leading bracket").is_none());
    assert!(parse_line("[no closing bracket").is_none());
    assert!(parse_line("[bad-timestamp] GAME: something").is_none());
}

#[test]
fn admin_pm_dropped() {
    let line = "[2026-04-30 16:20:42.301] ADMIN: PM: from admin to player: contents";
    assert!(parse_line(line).is_none(), "Admin PM should be dropped");
}

#[test]
fn process_game_log_drops_filtered_lines() {
    let input = "[2026-04-30 16:20:42.301] ACCESS: Login: alice from 1.2.3.4-100 || BYOND v516.1681\n\
                 [2026-04-30 16:20:43.301] ADMINPRIVATE: secret\n\
                 [2026-04-30 16:20:44.301] SQL: SELECT 1\n\
                 [2026-04-30 16:20:45.301] ACCESS: Logout: alice\n";
    let out = process_game_log(input.to_string());
    assert!(out.contains("Login: alice"), "Login should be kept: {out}");
    assert!(out.contains("Logout: alice"), "Logout should be kept: {out}");
    assert!(!out.contains("ADMINPRIVATE"), "ADMINPRIVATE dropped: {out}");
    assert!(!out.contains("SELECT"), "SQL dropped: {out}");
    assert!(!out.contains("1.2.3.4"), "IP filtered: {out}");
    assert!(!out.contains("censored"), "no censor placeholder: {out}");
}

#[test]
fn login_loses_exactly_one_word() {
    assert_eq!(
        parsed("[12:34:56] ACCESS: Login: SomeUser from -25 || BYOND v516.1681").as_deref(),
        Some("[12:34:56] ACCESS: Login: SomeUser from || BYOND v516.1681")
    );
    assert_eq!(
        parsed("[12:34:56] GAME-ACCESS: Login: a b c d").as_deref(),
        Some("[12:34:56] GAME-ACCESS: Login: b c d")
    );
    assert_eq!(
        parsed("[12:34:56] GAME-COMPAT: ACCESS: Login: a b c d e").as_deref(),
        Some("[12:34:56] ACCESS: Login: a c d e")
    );
    assert_eq!(parsed("[12:34:56] ACCESS: Login: a b c"), None);
    assert_eq!(parsed("[12:34:56] ACCESS:"), None);
}

#[test]
fn whole_lines_are_trimmed_and_stay() {
    let line = "[12:34:56] SAY: someone says  \"hi\"";
    assert_eq!(parsed(line).as_deref(), Some(line));
    assert_eq!(parsed("\u{3000}\t[12:34:56] SAY: x\r\u{a0}").as_deref(), Some("[12:34:56] SAY: x"));
    let kept = parsed("  [12:34:56] GAME-COMPAT: SAY: x ").unwrap();
    assert_eq!(kept, "[12:34:56] GAME-COMPAT: SAY: x");
    assert_eq!(parsed(&kept), Some(kept.clone()));
}

#[test]
fn borrowed_where_nothing_changes() {
    let line = "[12:34:56] SAY: x";
    assert!(matches!(parse_line(line), Some(std::borrow::Cow::Borrowed(_))));
    let login = "[12:34:56] ACCESS: Login: a b c d";
    assert!(matches!(parse_line(login), Some(std::borrow::Cow::Owned(_))));
}

#[test]
fn time_stamps() {
    let good = [
        "12:34:56",
        "2026-04-30 16:20:42.301",
        "26-04-30 16:20:42.3",
        "2026-0430-3030 16:20:42.30",
        "2026-04-30 16:20:42.1.22.333",
    ];
    for stamp in good {
        let line = format!("[{stamp}] GAME: x");
        assert_eq!(parsed(&line), Some(line.clone()));
    }
    let bad = [
        "",
        "1:34:56",
        "12:34:567",
        "12:34",
        "12-34-56",
        " 12:34:56",
        "12:34:56 ",
        "12:34:56.7",
        "2026-04-30 16:20:42",
        "2026-04-30 16:20:42.",
        "2026-04-30 16:20:42.3014",
        "2026-04-30 16:20:42.301.",
        "20261-04-30 16:20:42.301",
        "2026-4-30 16:20:42.301",
        "2026-04-30  16:20:42.301",
        "2026-04-30T16:20:42.301",
        "2026-04-30-01 16:20:42.301",
        "\u{661}\u{662}:34:56",
        "12:34:56\n",
    ];
    for stamp in bad {
        assert_eq!(parsed(&format!("[{stamp}] GAME: x")), None, "stamp: {stamp}");
    }
}

#[test]
fn rounds_are_announced() {
    let line = "[2026-04-30 16:20:42.301] Starting up round ID 2.";
    assert_eq!(parsed(line).as_deref(), Some(line));
    assert_eq!(parsed("[12:34:56] Starting up round"), None);
    assert_eq!(parsed("[12:34:56]GAME: x"), None);
    assert_eq!(parsed("[12:34:56] no category"), None);
    assert_eq!(parsed("[12:34:56] GAME-COMPAT:"), None);
}

#[test]
fn prefixes_of_categories() {
    assert_eq!(parsed("[12:34:56] GAME-SQL: x"), None);
    assert_eq!(parsed("[12:34:56] GAME-GAME-TOPIC: x"), None);
    assert_eq!(parsed("[12:34:56] GAME-COMPAT: ADMINPRIVATE: x"), None);
    assert_eq!(parsed("[12:34:56] GAME-COMPAT: GAME-SQL: x"), None);
    // the word behind GAME-COMPAT: needs no colon, and loses its last character anyway
    assert_eq!(parsed("[12:34:56] GAME-COMPAT: SQLx"), None);
    let other = "[12:34:56] GAME-COMPAT: SQL x";
    assert_eq!(parsed(other).as_deref(), Some(other));
}

#[test]
fn admin_entries() {
    let dropped = [
        "HELP: me",
        "PM: a->b",
        "ASAY: x",
        "<a href='x'>",
        "key/(Name) : hello",
        "key/(Name) added note x",
        "key/(Name) removed a note x",
        "key/(Name) has added x",
        "key/(Name) has edited x",
        "a:b key/(Name) : x",
        "key/(Na) (me) has edited x",
        "key/() : x",
        "key/(Name) \"quoted\"",
        "key/(Name) \"\"",
        "key/(Name) \"a\" b",
    ];
    for entry in dropped {
        assert_eq!(parsed(&format!("[12:34:56] ADMIN: {entry}")), None, "entry: {entry}");
    }
    let kept = [
        "key/(Name) did something",
        "key/(Name) :hello",
        "key(Name) : hello",
        "see HELP: me",
        "key/(Name) has  added x",
        "a: key/(Name) \"quoted\"",
        "key/(Name) \"unquoted",
        "key/(Name)  \"quoted\"",
    ];
    for entry in kept {
        let line = format!("[12:34:56] ADMIN: {entry}");
        assert_eq!(parsed(&line), Some(line.clone()), "entry: {entry}");
    }
    // the patterns look at one line, but a line break may come before a quotation
    let broken = "[12:34:56] ADMIN: key/(Name\n) : x";
    assert_eq!(parsed(broken).as_deref(), Some(broken));
    assert_eq!(parsed("[12:34:56] ADMIN: a\nkey/(Name) \"q\""), None);
    let torn = "[12:34:56] ADMIN: key/(Name) \"q\nr\"";
    assert_eq!(parsed(torn).as_deref(), Some(torn));
}

#[test]
fn what_cannot_be_told_apart() {
    assert!(!is_readable("[12:34:56]"));
    assert!(!is_readable("  [12:34:56]  "));
    assert!(!is_readable("[12:34:56] GAME-COMPAT:  x"));
    assert!(!is_readable("[12:34:56] GAME-COMPAT: \u{e9}"));
    assert!(is_readable("[12:34:56] GAME-COMPAT:"));
    assert!(is_readable("[12:34:56] GAME-COMPAT: x"));
    assert!(is_readable("[12:34]"));
    assert!(is_readable("[12:34:56]x"));
    assert!(is_readable_log("[12:34:56] SAY: x\n"));
    assert!(!is_readable_log("a\n[12:34:56]\nb"));
    assert!(!is_readable_log("[12:34:56] 1.2.3.4\n"));
}

#[test]
fn logs_are_published_if_every_line_can_be_told_apart() {
    let log = "[12:34:56] SAY: x\n[12:34:57] SQL: y\n".to_string();
    assert_eq!(try_process_game_log(log), Some("[12:34:56] SAY: x\n".to_string()));
    assert_eq!(try_process_game_log(String::new()), Some(String::new()));
    assert_eq!(try_process_game_log("[12:34:56] SAY: x\n[12:34:56]\n".to_string()), None);
}

#[test]
fn addresses_are_taken_out() {
    assert_eq!(filter_ips("1.2.3.4"), "");
    assert_eq!(filter_ips("from 127.0.0.1-55 to"), "from -55 to");
    assert_eq!(filter_ips("v516.1681 and 1.2.3"), "v516.1681 and 1.2.3");
    assert_eq!(filter_ips("1.2.3.4567"), "7");
    assert_eq!(filter_ips("1234.5.6.7"), "1");
    assert_eq!(filter_ips("1.2.3.4.5.6.7.8"), ".");
    assert_eq!(filter_ips("1.2.3.4.5.6.7"), ".5.6.7");
    assert_eq!(filter_ips("1.2.3.\n4"), "1.2.3.\n4");
    assert_eq!(filter_ips("1.2..3.4"), "1.2..3.4");
    assert_eq!(filter_ips("x9.9.9.9y\u{e9}"), "xy\u{e9}");
    assert_eq!(filter_ips("\u{661}.2.3.4"), "\u{661}.2.3.4");
    // what is left on both sides of an address may be an address again
    assert_eq!(filter_ips("12341.2.3.4.3.4.5"), "12.3.4.5");
}

#[test]
fn logs_are_published_line_by_line() {
    let a = "[12:34:56] SAY: x\r\n[12:34:57] SQL: y\n\n";
    let b = "[12:34:58] SAY: from 1.2.3.4 z";
    assert_eq!(process_game_log(a.to_string()), "[12:34:56] SAY: x\n");
    assert_eq!(process_game_log(b.to_string()), "[12:34:58] SAY: from  z\n");
    let both = format!("{a}{b}");
    assert_eq!(
        process_game_log(both),
        "[12:34:56] SAY: x\n[12:34:58] SAY: from  z\n"
    );
    assert_eq!(process_game_log(String::new()), "");
    assert_eq!(process_game_log("1.2.3.4".to_string()), "");
}

#[test]
fn published_logs_have_a_line_for_each_kept_line() {
    let log = "[12:34:56] SAY: a\r\nnoise\n  [12:34:57] ACCESS: Login: a from 1.2.3.4-5 || BYOND v1\t\n\
               [12:34:58] TOPIC: b\n[12:34:59] OOC: c";
    let out = process_game_log(log.to_string());
    let kept: Vec<&str> = out.lines().collect();
    assert_eq!(
        kept,
        [
            "[12:34:56] SAY: a",
            "[12:34:57] ACCESS: Login: a from || BYOND v1",
            "[12:34:59] OOC: c",
        ]
    );
    assert!(out.ends_with('\n'));
}

#[test]
fn published_logs_hold_no_private_entry() {
    let log = "[12:34:56] ADMINPRIVATE: a\n[12:34:57] GAME-TOPIC: b\n[12:34:58] GAME-COMPAT: SQL: c\n\
               [12:34:59] ACCESS: Login: d from -5 || BYOND v1\n[12:35:00] ACCESS: Logout: d\n\
               [12:35:01] ACCESS: Failed Login: d 5 - reason\n[12:35:02] ACCESS: AFK: d\n\
               [12:35:03] ADMIN: HELP: e\n[12:35:04] ADMIN: f\n";
    let out = process_game_log(log.to_string());
    assert_eq!(
        out,
        "[12:34:59] ACCESS: Login: d from || BYOND v1\n[12:35:00] ACCESS: Logout: d\n\
         [12:35:04] ADMIN: f\n"
    );
    for line in out.lines() {
        let words: Vec<&str> = line.split(' ').collect();
        assert!(!["ADMINPRIVATE:", "TOPIC:", "SQL:"].contains(&words[1]), "{line}");
        assert!(words[1] != "ACCESS:" || ["Login:", "Logout:"].contains(&words[2]), "{line}");
    }
}

#[test]
fn published_logs_have_no_address() {
    let log = "[12:34:56] SAY: 10.0.0.1, (192.168.0.1) and 8.8.8.8.\n\
               [12:34:57] ACCESS: Login: a from 1.2.3.4-5 || BYOND v1\n";
    let out = process_game_log(log.to_string());
    assert_eq!(out, "[12:34:56] SAY: , () and .\n[12:34:57] ACCESS: Login: a from || BYOND v1\n");
    assert_eq!(filter_ips(&out), out);
}

#[test]
fn carriage_returns_do_not_matter() {
    let log = "[12:34:56] SAY: a\r1.2.3.4\n1.2.3.4";
    assert_eq!(process_game_log(log.to_string()), "[12:34:56] SAY: a\n");
}
