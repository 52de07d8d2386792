use study_time::hosts::{
    append_section, block_section, remove_sections, Platform, PlatformBlocker,
};

const SECTION: &str = "# >>> STUDY-TIME BLOCK START <<<\n\
127.0.0.1 x.com\n127.0.0.1 www.x.com\n::1 x.com\n::1 www.x.com\n\
127.0.0.1 bsky.app\n127.0.0.1 www.bsky.app\n::1 bsky.app\n::1 www.bsky.app\n\
# >>> STUDY-TIME BLOCK END <<<\n";

fn domains() -> Vec<String> {
    vec!["x.com".to_string(), "bsky.app".to_string()]
}

#[test]
fn marks() {
    assert_eq!(PlatformBlocker::marker_start(), "# >>> STUDY-TIME BLOCK START <<<");
    assert_eq!(PlatformBlocker::marker_end(), "# >>> STUDY-TIME BLOCK END <<<");
}

#[test]
fn where_the_hosts_file_stands() {
    assert_eq!(
        PlatformBlocker::hosts_path(Platform::Windows),
        r"C:\Windows\System32\drivers\etc\hosts"
    );
    assert_eq!(PlatformBlocker::hosts_path(Platform::MacOs), "/etc/hosts");
    assert_eq!(PlatformBlocker::hosts_path(Platform::Other), "/etc/hosts");
}

#[test]
fn section_lists_four_lines_for_each_domain() {
    assert_eq!(block_section(&domains()), SECTION);
    assert_eq!(
        block_section(&Vec::new()),
        "# >>> STUDY-TIME BLOCK START <<<\n# >>> STUDY-TIME BLOCK END <<<\n"
    );
}

#[test]
fn section_goes_behind_the_trimmed_file() {
    let want = format!("127.0.0.1 localhost\n{}", SECTION);
    assert_eq!(append_section("127.0.0.1 localhost\n", &domains()), want);
    assert_eq!(append_section("127.0.0.1 localhost\r\n\n \t\u{a0}\u{3000}\n", &domains()), want);
    assert_eq!(append_section("", &domains()), format!("\n{}", SECTION));
}

#[test]
fn trimming_follows_the_standard_library() {
    for code in 0..0x11_0000u32 {
        if let Some(c) = char::from_u32(code) {
            let content = format!("a{}", c);
            let want = format!("{}\n{}", content.trim_end(), block_section(&Vec::new()));
            assert_eq!(append_section(&content, &Vec::new()), want);
        }
    }
}

#[test]
fn removing_gives_the_file_back() {
    for content in ["127.0.0.1 localhost", "a\n\nb\n# c", "", "a\n", "\n\n a\n\t\n"] {
        let blocked = append_section(content, &domains());
        assert_eq!(remove_sections(&blocked), content.trim_end());
    }
}

#[test]
fn removing_turns_line_ends_into_line_feeds() {
    let blocked = append_section("a\r\nb\r\r\nc", &domains());
    assert_eq!(remove_sections(&blocked), "a\nb\r\nc");
    assert_eq!(remove_sections("a\r\nb\r"), "a\nb\r");
}

#[test]
fn removing_drops_one_trailing_line_feed() {
    assert_eq!(remove_sections("a\nb\n"), "a\nb");
    assert_eq!(remove_sections("a\nb\n\n"), "a\nb\n");
    assert_eq!(remove_sections("a\nb"), "a\nb");
    assert_eq!(remove_sections(""), "");
    assert_eq!(remove_sections("\n"), "");
}

#[test]
fn removing_drops_every_section_and_stray_mark() {
    let content = format!("a\n{}b\n{}c", SECTION, SECTION);
    assert_eq!(remove_sections(&content), "a\nb\nc");
    assert_eq!(remove_sections("a\n# >>> STUDY-TIME BLOCK END <<<\nb"), "a\nb");
    assert_eq!(remove_sections("a\n# >>> STUDY-TIME BLOCK START <<<\nb"), "a");
    assert_eq!(remove_sections("a\nx # >>> STUDY-TIME BLOCK START <<< y\nb"), "a");
}

#[test]
fn no_mark_is_left() {
    let start = PlatformBlocker::marker_start();
    let end = PlatformBlocker::marker_end();
    for content in [
        format!("{}\n{}", start, start),
        format!("{}{}\nb\n{}\nc", end, start, end),
        format!("a\r\n{}\r\nb\r\n{}\r\nc", start, end),
    ] {
        let cleared = remove_sections(&content);
        assert!(!cleared.contains(start) && !cleared.contains(end));
    }
}

#[test]
fn every_domain_is_in_a_blocked_file() {
    let blocked = append_section("a", &domains());
    for d in domains() {
        for line in [
            format!("127.0.0.1 {}\n", d),
            format!("127.0.0.1 www.{}\n", d),
            format!("::1 {}\n", d),
            format!("::1 www.{}\n", d),
        ] {
            assert!(blocked.contains(&line));
        }
    }
}

#[test]
fn blocks_once_until_unblocked() {
    let mut blocker = PlatformBlocker::new(domains(), None).0;
    assert!(!blocker.is_blocking);
    let text = blocker.block(Some("a\n".to_string()));
    assert_eq!(text, Some(format!("a\n{}", SECTION)));
    assert!(blocker.block_written(true, Platform::Other).is_empty());
    assert!(blocker.is_blocking);
    assert_eq!(blocker.block(Some("a\n".to_string())), None);
    assert_eq!(blocker.unblock(text), Some("a".to_string()));
    assert!(!blocker.is_blocking);
    assert!(blocker.block(None).is_some());
}

#[test]
fn unreadable_file_counts_as_empty_for_blocking() {
    let blocker = PlatformBlocker::new(domains(), None).0;
    assert_eq!(blocker.block(None), Some(format!("\n{}", SECTION)));
}

#[test]
fn unopened_file_does_not_block() {
    let mut blocker = PlatformBlocker::new(domains(), None).0;
    assert!(blocker.block_written(false, Platform::MacOs).is_empty());
    assert!(!blocker.is_blocking);
}

#[test]
fn name_caches_are_cleared() {
    let mut blocker = PlatformBlocker::new(domains(), None).0;
    let windows = blocker.block_written(true, Platform::Windows);
    assert_eq!(windows.len(), 1);
    assert_eq!(windows[0].program, "ipconfig");
    assert_eq!(windows[0].args, ["/flushdns"]);
    let mac = blocker.block_written(true, Platform::MacOs);
    assert_eq!(mac.len(), 2);
    assert_eq!(mac[0].program, "dscacheutil");
    assert_eq!(mac[0].args, ["-flushcache"]);
    assert_eq!(mac[1].program, "killall");
    assert_eq!(mac[1].args, ["-HUP", "mDNSResponder"]);
}

#[test]
fn flushing_an_unreadable_file_changes_nothing() {
    let mut blocker = PlatformBlocker::new(domains(), None).0;
    blocker.block_written(true, Platform::Other);
    assert_eq!(blocker.flush_all(None), None);
    assert!(blocker.is_blocking);
    assert_eq!(blocker.unblock(None), None);
    assert!(!blocker.is_blocking);
}

#[test]
fn flushing_a_readable_file_ends_blocking() {
    let mut blocker = PlatformBlocker::new(domains(), None).0;
    blocker.block_written(true, Platform::Other);
    assert_eq!(blocker.flush_all(Some("a\n".to_string())), Some("a".to_string()));
    assert!(!blocker.is_blocking);
}

#[test]
fn a_new_blocker_clears_old_sections_away() {
    let (blocker, text) =
        PlatformBlocker::new(domains(), Some(format!("a\n{}b\n", SECTION)));
    assert_eq!(text, Some("a\nb".to_string()));
    assert_eq!(blocker.blocked_domains, domains());
    assert!(!blocker.is_blocking);
    let (blocker, text) = PlatformBlocker::new(domains(), None);
    assert_eq!(text, None);
    assert!(!blocker.is_blocking);
}

#[test]
fn a_carriage_return_in_the_white_space_at_the_end_does_no_harm() {
    let blocked = append_section("a\nb\r\n\r\n", &domains());
    assert_eq!(remove_sections(&blocked), "a\nb");
}

#[test]
fn a_domain_with_the_end_mark_ends_the_section_early() {
    let end = PlatformBlocker::marker_end();
    let harmless = vec![end.to_string()];
    assert_eq!(remove_sections(&append_section("a", &harmless)), "a");
    let leaking = vec![end.to_string(), "x.com".to_string()];
    assert_eq!(
        remove_sections(&append_section("a", &leaking)),
        "a\n127.0.0.1 x.com\n127.0.0.1 www.x.com\n::1 x.com\n::1 www.x.com"
    );
}
