use gambleguard::apply_latest_blocklist;
use gambleguard::blocklist::parse_blocklist;
use gambleguard::hosts_modifier::{apply_blocklist, build_managed_block, cleanup_hosts};
use gambleguard::updater::{fetch_from_sources, normalize_blocklist, split_lines, trim_line};

fn strings(items: &[&str]) -> Vec<String> {
    items.iter().map(|s| s.to_string()).collect()
}

const START: &str = "# BEGIN GAMBLEGUARD";
const END: &str = "# END GAMBLEGUARD";

#[test]
fn parse_drops_empty_and_comments_keeps_order() {
    let input = strings(&["", "#note", "foo.com", "bar.com"]);
    let out = parse_blocklist(&input);
    assert_eq!(out, strings(&["foo.com", "bar.com"]));
}

#[test]
fn parse_keeps_duplicates() {
    let input = strings(&["a.com", "a.com", "#x", "a.com"]);
    let out = parse_blocklist(&input);
    assert_eq!(out, strings(&["a.com", "a.com", "a.com"]));
}

#[test]
fn block_contains_exactly_four_lines_per_domain() {
    let block = build_managed_block(&strings(&["example.com"]));
    assert_eq!(
        block,
        strings(&[
            START,
            "127.0.0.1 example.com",
            "127.0.0.1 www.example.com",
            "::1 example.com",
            "::1 www.example.com",
            END,
        ])
    );
}

#[test]
fn apply_appends_block_after_existing_content() {
    let hosts = strings(&["127.0.0.1 localhost", "::1 localhost"]);
    let out = apply_blocklist(&strings(&["example.com"]), &hosts);
    assert_eq!(
        out,
        strings(&[
            "127.0.0.1 localhost",
            "::1 localhost",
            START,
            "127.0.0.1 example.com",
            "127.0.0.1 www.example.com",
            "::1 example.com",
            "::1 www.example.com",
            END,
        ])
    );
}

#[test]
fn apply_twice_is_idempotent() {
    let hosts = strings(&["127.0.0.1 localhost", ""]);
    let domains = strings(&["a.com", "b.com"]);
    let once = apply_blocklist(&domains, &hosts);
    let twice = apply_blocklist(&domains, &once);
    assert_eq!(once, twice);
}

#[test]
fn apply_converges_to_latest_list() {
    let hosts = strings(&["127.0.0.1 localhost"]);
    let first = apply_blocklist(&strings(&["a.com"]), &hosts);
    let second = apply_blocklist(&strings(&["b.com"]), &first);
    let direct = apply_blocklist(&strings(&["b.com"]), &hosts);
    assert_eq!(second, direct);
    assert!(!second.iter().any(|l| l.contains("a.com")));
    assert_eq!(second[0], "127.0.0.1 localhost");
}

#[test]
fn apply_trims_trailing_blank_lines() {
    let hosts = strings(&["127.0.0.1 localhost", "", "  ", "\t"]);
    let out = apply_blocklist(&strings(&[]), &hosts);
    assert_eq!(out, strings(&["127.0.0.1 localhost", START, END]));
}

#[test]
fn apply_with_end_marker_alone_treats_file_as_blockless() {
    let hosts = strings(&[END, "127.0.0.1 localhost"]);
    let out = apply_blocklist(&strings(&["a.com"]), &hosts);
    assert_eq!(
        out,
        strings(&[
            END,
            "127.0.0.1 localhost",
            START,
            "127.0.0.1 a.com",
            "127.0.0.1 www.a.com",
            "::1 a.com",
            "::1 www.a.com",
            END,
        ])
    );
}

#[test]
fn cleanup_restores_unrelated_lines() {
    let hosts = strings(&[
        "127.0.0.1 localhost",
        "::1 localhost",
        START,
        "127.0.0.1 a.com",
        "127.0.0.1 www.a.com",
        "::1 a.com",
        "::1 www.a.com",
        END,
        "10.0.0.1 printer",
    ]);
    let out = cleanup_hosts(&hosts);
    assert_eq!(
        out,
        strings(&["127.0.0.1 localhost", "::1 localhost", "10.0.0.1 printer"])
    );
}

#[test]
fn cleanup_after_apply_round_trips() {
    let hosts = strings(&["127.0.0.1 localhost"]);
    let patched = apply_blocklist(&strings(&["a.com", "b.com"]), &hosts);
    let cleaned = cleanup_hosts(&patched);
    assert_eq!(cleaned, hosts);
}

#[test]
fn cleanup_keeps_marker_free_file_verbatim() {
    let hosts = strings(&["127.0.0.1 localhost", "", "# a comment"]);
    assert_eq!(cleanup_hosts(&hosts), hosts);
}

#[test]
fn fetch_falls_back_on_connection_failure() {
    let got = fetch_from_sources(None, Ok("x.com\n#skip\n".to_string()));
    assert_eq!(got.unwrap(), strings(&["x.com"]));
}

#[test]
fn fetch_prefers_remote_payload() {
    let got = fetch_from_sources(
        Some("remote.com\n".to_string()),
        Ok("local.com\n".to_string()),
    );
    assert_eq!(got.unwrap(), strings(&["remote.com"]));
}

#[test]
fn fetch_fails_with_fallback_error_when_both_fail() {
    let got = fetch_from_sources(None, Err("no such file".to_string()));
    let err = got.err().expect("both sources failed");
    assert_eq!(err.message().as_str(), "no such file");
}

#[test]
fn normalize_trims_and_filters() {
    let text = "  a.com \r\n\n# comment\n\tb.com\t\n".to_string();
    assert_eq!(normalize_blocklist(&text), strings(&["a.com", "b.com"]));
}

#[test]
fn split_lines_handles_crlf_and_final_newline() {
    assert_eq!(split_lines(&"a\r\nb\n".to_string()), strings(&["a", "b"]));
    assert_eq!(split_lines(&"a\nb".to_string()), strings(&["a", "b"]));
    assert_eq!(split_lines(&"".to_string()), Vec::<String>::new());
    assert_eq!(split_lines(&"\n".to_string()), strings(&[""]));
}

#[test]
fn trim_line_removes_surrounding_blanks_only() {
    assert_eq!(trim_line(&" \t x y \r".to_string()), "x y".to_string());
    assert_eq!(trim_line(&"plain".to_string()), "plain".to_string());
    assert_eq!(trim_line(&" \t ".to_string()), "".to_string());
}

#[test]
fn refresh_cycle_patches_from_remote() {
    let hosts = strings(&["127.0.0.1 localhost"]);
    let out = apply_latest_blocklist(
        Some("# list\nc.com\n".to_string()),
        Err("unused".to_string()),
        &hosts,
    )
    .unwrap();
    assert_eq!(
        out,
        strings(&[
            "127.0.0.1 localhost",
            START,
            "127.0.0.1 c.com",
            "127.0.0.1 www.c.com",
            "::1 c.com",
            "::1 www.c.com",
            END,
        ])
    );
}

#[test]
fn refresh_cycle_skips_on_double_failure() {
    let hosts = strings(&["127.0.0.1 localhost"]);
    let out = apply_latest_blocklist(None, Err("offline".to_string()), &hosts);
    assert_eq!(out.err().expect("cycle must skip").message().as_str(), "offline");
}
