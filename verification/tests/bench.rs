use hird_check::bench::{
    boot_count, count_boots, is_white_space, peak_bytes, sh_quote, source_id, split_lines, summarize, Boots,
    Summary,
};

#[test]
fn source_ids_saturate() {
    assert_eq!(source_id(0), 0);
    assert_eq!(source_id(7), 7);
    assert_eq!(source_id(u32::MAX as usize), u32::MAX);
    assert_eq!(source_id(usize::MAX), u32::MAX);
}

#[test]
fn lines_split_like_str_lines() {
    for text in ["", "a", "a\n", "a\n\nb", "x\r\ny\r", "\r\n", "erl\nerlc\n\n"] {
        let got: Vec<String> = split_lines(text).into_iter().map(|l| l.into_iter().collect()).collect();
        let want: Vec<String> = text.lines().map(String::from).collect();
        assert_eq!(got, want, "{text:?}");
    }
}

#[test]
fn boots_are_counted_from_the_shim_log() {
    assert_eq!(count_boots("erlc\nerl\nerl\n"), Boots { erlc: 1, erl: 2 });
    assert_eq!(count_boots(""), Boots { erlc: 0, erl: 0 });
    assert_eq!(count_boots("erl\r\nerlc\nerl x\nerl"), Boots { erlc: 1, erl: 2 });
}

#[test]
fn boot_counts_render() {
    assert_eq!(boot_count(Boots { erlc: 0, erl: 0 }), "0");
    assert_eq!(boot_count(Boots { erlc: 1, erl: 2 }), "3 (1 erlc, 2 erl)");
    assert_eq!(boot_count(Boots { erlc: 0, erl: 4 }), "4 (0 erlc, 4 erl)");
}

#[test]
fn paths_are_single_quoted_for_sh() {
    assert_eq!(sh_quote("/tmp/boots.log"), "'/tmp/boots.log'");
    assert_eq!(sh_quote("it's"), r"'it'\''s'");
    assert_eq!(sh_quote(""), "''");
}

#[test]
fn timings_summarise_to_median_min_max() {
    assert_eq!(summarize(&[5, 1, 3]), Summary { median: 3, min: 1, max: 5 });
    assert_eq!(summarize(&[4, 1, 3, 2]), Summary { median: 2, min: 1, max: 4 });
    assert_eq!(summarize(&[7]), Summary { median: 7, min: 7, max: 7 });
    assert_eq!(summarize(&[2, 3]), Summary { median: 2, min: 2, max: 3 });
}

#[test]
fn peak_rss_is_read_from_vm_hwm() {
    let status = "Name:\tbench\nVmPeak:\t  2048 kB\nVmHWM:\t    1234 kB\nVmRSS:\t 10 kB\n";
    assert_eq!(peak_bytes(status), Some(1234 * 1024));
    assert_eq!(peak_bytes("VmHWM: 12kB"), Some(12 * 1024));
    assert_eq!(peak_bytes("VmHWM: +12 kB"), Some(12 * 1024));
    assert_eq!(peak_bytes("VmHWM: 12 MB\nVmHWM: 3 kB"), None);
    assert_eq!(peak_bytes("VmRSS: 12 kB"), None);
    assert_eq!(peak_bytes("VmHWM: x kB"), None);
    assert_eq!(peak_bytes("VmHWM: 99999999999999999999 kB"), None);
}

#[test]
fn white_space_matches_char_is_whitespace() {
    for code in 0u32..0x3100 {
        if let Some(c) = char::from_u32(code) {
            assert_eq!(is_white_space(c), c.is_whitespace(), "{code:#x}");
        }
    }
}
