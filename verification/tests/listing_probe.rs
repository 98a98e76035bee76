//! The listing probe: what it is told, what it plans, what it reports.

use smb2::args::Args;
use smb2::config::{
    configured_path, default_config_path, sibling_config_path, BenchConfig, Target,
};
use smb2::plan::{
    buffer_sizes, cold_needed, max_sessions, session_slice, split_sample, usable_sessions,
    window_slice,
};
use smb2::report::{short, stats_us, summarize_phases, ListingTrace, PhaseSummary, Stats};
use smb2::text::{chars_of, parse_number, parse_u32_csv, parse_usize_csv};

fn words(list: &[&str]) -> Vec<String> {
    list.iter().map(|w| w.to_string()).collect()
}

fn parse(list: &[&str]) -> (Args, Vec<String>) {
    Args::parse(&words(list), "default.toml".to_string())
}

// ── Numbers and lists ─────────────────────────────────────────────────────

#[test]
fn numbers_are_digits_and_nothing_else() {
    assert_eq!(parse_number("0", 10), Some(0));
    assert_eq!(parse_number("+10", 10), Some(10));
    assert_eq!(parse_number("007", 10), Some(7));
    assert_eq!(parse_number("11", 10), None);
    for text in ["", "+", "++1", "-1", "1 ", " 1", "1_0", "0x1", "1.0", "a"] {
        assert_eq!(parse_number(text, u64::MAX), None, "{text:?}");
    }
    assert_eq!(parse_number("18446744073709551615", u64::MAX), Some(u64::MAX));
    assert_eq!(parse_number("18446744073709551616", u64::MAX), None);
    assert_eq!(parse_number("99999999999999999999999999", u64::MAX), None);
    assert_eq!(chars_of("aé\u{3000}"), ['a', 'é', '\u{3000}']);
}

#[test]
fn lists_keep_what_is_a_number() {
    assert_eq!(parse_usize_csv("1,8,32"), [1, 8, 32]);
    assert_eq!(parse_usize_csv(" 1 ,\t8\n,x,,+3,-4, 5 6"), [1, 8, 3]);
    assert_eq!(parse_usize_csv("\u{a0}7\u{2003}"), [7]);
    assert_eq!(parse_usize_csv(""), Vec::<usize>::new());
    assert_eq!(parse_usize_csv(",,"), Vec::<usize>::new());
    assert_eq!(parse_u32_csv("64,4294967295,4294967296,0"), [64, u32::MAX, 0]);
}

#[test]
fn lists_joined_by_a_comma_hold_both() {
    let (a, b) = ("1, 2,x", "3,,4");
    let mut both = parse_u32_csv(a);
    both.extend(parse_u32_csv(b));
    assert_eq!(parse_u32_csv(&format!("{a},{b}")), both);
}

// ── The command line ──────────────────────────────────────────────────────

#[test]
fn the_defaults_are_the_documented_ones() {
    let (args, ignored) = parse(&[]);
    assert_eq!(
        args,
        Args {
            config: "default.toml".to_string(),
            target: None,
            root: String::new(),
            sample: 200,
            windows: vec![1, 8, 32, 64, 128],
            cold_slice: 60,
            session_window: 64,
            sessions: vec![1, 2, 4],
            fat: 5,
            buffers_kib: vec![64, 256, 1024],
        }
    );
    assert!(ignored.is_empty());
}

#[test]
fn every_flag_sets_its_field() {
    let (args, ignored) = parse(&[
        "--config",
        "a.toml",
        "--target",
        "nas",
        "--root",
        "photos/2024\\raw/",
        "--sample",
        "10",
        "--windows",
        "2,4",
        "--cold-slice",
        "7",
        "--session-window",
        "9",
        "--sessions",
        "3",
        "--fat",
        "1",
        "--buffers",
        "128",
    ]);
    assert_eq!(
        args,
        Args {
            config: "a.toml".to_string(),
            target: Some("nas".to_string()),
            root: "photos\\2024\\raw\\".to_string(),
            sample: 10,
            windows: vec![2, 4],
            cold_slice: 7,
            session_window: 9,
            sessions: vec![3],
            fat: 1,
            buffers_kib: vec![128],
        }
    );
    assert!(ignored.is_empty());
}

#[test]
fn odd_command_lines_are_read_all_the_same() {
    // What is no number leaves the field alone; what is no list empties it.
    let (args, _) = parse(&["--sample", "many", "--fat", "-1", "--windows", "wide"]);
    assert_eq!(args.sample, 200);
    assert_eq!(args.fat, 5);
    assert_eq!(args.windows, Vec::<usize>::new());

    // A flag at the end has an empty value.
    let (args, ignored) = parse(&["--target"]);
    assert_eq!(args.target, Some(String::new()));
    assert!(ignored.is_empty());

    // The value of a flag is the next word, whatever it is.
    let (args, ignored) = parse(&["--target", "--root", "docs"]);
    assert_eq!(args.target, Some("--root".to_string()));
    assert_eq!(args.root, "");
    assert_eq!(ignored, ["docs"]);

    // The last one wins.
    let (args, _) = parse(&["--sample", "1", "--sample", "2"]);
    assert_eq!(args.sample, 2);
}

#[test]
fn unknown_words_are_ignored_one_at_a_time() {
    let (args, ignored) = parse(&["--verbose", "--sample", "3", "-x", "--config=b.toml"]);
    assert_eq!(args.sample, 3);
    assert_eq!(args.config, "default.toml");
    assert_eq!(ignored, ["--verbose", "-x", "--config=b.toml"]);
}

// ── The configuration ─────────────────────────────────────────────────────

fn target(name: &str, host: &str) -> Target {
    Target {
        name: name.to_string(),
        host: host.to_string(),
        share: "media".to_string(),
        username: Some("me".to_string()),
        password: None,
        guest: false,
        native_mount: None,
        max_chunk_kb: Some(512),
    }
}

#[test]
fn a_target_is_picked_by_name_or_first() {
    let config = BenchConfig {
        targets: vec![target("a", "1"), target("b", "2"), target("b", "3")],
    };
    assert_eq!(config.pick(None).unwrap(), target("a", "1"));
    assert_eq!(config.pick(Some("a")).unwrap(), target("a", "1"));
    assert_eq!(config.pick(Some("b")).unwrap(), target("b", "2"));
    assert_eq!(config.pick(Some("c")).unwrap_err(), "No target named 'c' in config");
    let empty = BenchConfig { targets: vec![] };
    assert_eq!(empty.pick(None).unwrap_err(), "Config has no targets");
    assert_eq!(empty.pick(Some("")).unwrap_err(), "No target named '' in config");
    assert_eq!(config.targets[1].duplicate(), config.targets[1]);
    assert_eq!(config.targets[1].clone(), config.targets[1]);
}

#[test]
fn the_configuration_is_the_siblings_unless_told_otherwise() {
    assert_eq!(sibling_config_path("/repo/probe"), "/repo/probe/../smb/config.toml");
    assert_eq!(sibling_config_path("/repo/probe/"), "/repo/probe/../smb/config.toml");
    assert_eq!(sibling_config_path(""), "../smb/config.toml");
    assert_eq!(
        default_config_path("/repo/probe", Some("/repo/smb/config.toml".to_string())),
        "/repo/smb/config.toml"
    );
    assert_eq!(default_config_path("/repo/probe", None), "/repo/probe/../smb/config.toml");
    assert_eq!(configured_path(None, "d".to_string()), "d");
    assert_eq!(configured_path(Some("e".to_string()), "d".to_string()), "e");
    // A flag beats both.
    let default = configured_path(Some("e".to_string()), "d".to_string());
    let (args, _) = Args::parse(&words(&["--config", "f"]), default);
    assert_eq!(args.config, "f");
}

// ── The plan ──────────────────────────────────────────────────────────────

#[test]
fn the_cold_directories_are_counted() {
    assert_eq!(cold_needed(200, 5, 3, 60), Some(680));
    assert_eq!(cold_needed(200, 0, 0, usize::MAX), Some(200));
    assert_eq!(cold_needed(0, usize::MAX, usize::MAX, 0), Some(0));
    assert_eq!(cold_needed(0, 1, 0, usize::MAX), Some(usize::MAX));
    assert_eq!(cold_needed(1, 1, 0, usize::MAX), None);
    assert_eq!(cold_needed(0, usize::MAX, usize::MAX, usize::MAX), None);
}

#[test]
fn the_sample_comes_first_and_the_pool_is_the_rest() {
    let dirs = words(&["a", "b", "c"]);
    assert_eq!(split_sample(dirs.clone(), 2), (words(&["a", "b"]), words(&["c"])));
    assert_eq!(split_sample(dirs.clone(), 0), (vec![], dirs.clone()));
    assert_eq!(split_sample(dirs.clone(), 3), (dirs.clone(), vec![]));
    assert_eq!(split_sample(dirs.clone(), 9), (dirs, vec![]));
}

#[test]
fn no_directory_is_listed_cold_twice() {
    // Two windows and two session counts over a pool that runs out in the last slice.
    let mut listed = vec![0; 11];
    for i in 0..2 {
        let (lo, hi) = window_slice(i, 3, listed.len()).unwrap();
        listed[lo..hi].iter_mut().for_each(|n| *n += 1);
    }
    for j in 0..2 {
        let (lo, hi) = session_slice(2, j, 3, listed.len()).unwrap();
        listed[lo..hi].iter_mut().for_each(|n| *n += 1);
    }
    assert_eq!(listed, [1; 11]);
    assert_eq!(session_slice(2, 1, 3, 11), Some((9, 11)));
    assert_eq!(session_slice(2, 2, 3, 11), None);
}

/// A share with fewer directories than the sample leaves the sweeps nothing.
#[test]
fn a_small_share_is_all_sample() {
    let (sample, pool) = split_sample(words(&["a", "b"]), 200);
    assert_eq!(sample, ["a", "b"]);
    assert_eq!(window_slice(0, 60, pool.len()), None);
    assert_eq!(session_slice(5, 0, 60, pool.len()), None);
}

#[test]
fn enough_directories_fill_every_slice() {
    let (windows, sessions, slice, sample) = (5, 3, 60, 200);
    let pool = cold_needed(sample, windows, sessions, slice).unwrap() - sample;
    for i in 0..windows {
        assert_eq!(window_slice(i, slice, pool), Some((i * slice, i * slice + slice)));
    }
    for j in 0..sessions {
        let lo = (windows + j) * slice;
        assert_eq!(session_slice(windows, j, slice, pool), Some((lo, lo + slice)));
    }
}

#[test]
fn extreme_slices_do_not_overflow() {
    assert_eq!(window_slice(0, 0, 10), None);
    assert_eq!(window_slice(0, usize::MAX, 10), Some((0, 10)));
    assert_eq!(window_slice(usize::MAX, usize::MAX, usize::MAX), None);
    assert_eq!(session_slice(usize::MAX, usize::MAX, 1, usize::MAX), None);
    assert_eq!(window_slice(1, usize::MAX - 1, usize::MAX), Some((usize::MAX - 1, usize::MAX)));
}

#[test]
fn buffers_above_the_maximum_are_skipped() {
    assert_eq!(buffer_sizes(&[64, 256, 1024], 1 << 20), [65536, 262144, 1048576]);
    assert_eq!(buffer_sizes(&[1024, 64], 65536), [65536]);
    assert_eq!(buffer_sizes(&[4_194_304, u32::MAX, 1], u32::MAX), [1024]);
    assert_eq!(buffer_sizes(&[0], 0), [0]);
}

#[test]
fn the_widest_sweep_sets_the_session_count() {
    assert_eq!(max_sessions(&[1, 2, 4]), 4);
    assert_eq!(max_sessions(&[4, 4, 2]), 4);
    assert_eq!(max_sessions(&[0]), 0);
    assert_eq!(max_sessions(&[]), 1);
    assert_eq!(usable_sessions(4, 2), 2);
    assert_eq!(usable_sessions(1, 2), 1);
}

// ── The report ────────────────────────────────────────────────────────────

fn ms(values: &[u128]) -> Vec<u128> {
    values.iter().map(|v| v * 1_000_000).collect()
}

#[test]
fn percentiles_are_measured_values() {
    assert_eq!(
        stats_us(&[]).unwrap(),
        Stats { p50_us: 0, p90_us: 0, sum_us: 0, count: 0 }
    );
    assert_eq!(
        stats_us(&ms(&[5])).unwrap(),
        Stats { p50_us: 5_000, p90_us: 5_000, sum_us: 5_000, count: 1 }
    );
    // An even count: the half rounds up.
    assert_eq!(
        stats_us(&ms(&[4, 1, 3, 2])).unwrap(),
        Stats { p50_us: 3_000, p90_us: 4_000, sum_us: 10_000, count: 4 }
    );
    // Eleven values: the ranks are 5 and 9.
    assert_eq!(
        stats_us(&ms(&[11, 10, 9, 8, 7, 6, 5, 4, 3, 2, 1])).unwrap(),
        Stats { p50_us: 6_000, p90_us: 10_000, sum_us: 66_000, count: 11 }
    );
    // Six values: 4.5 rounds up to rank 5.
    assert_eq!(stats_us(&ms(&[6, 1, 5, 2, 4, 3])).unwrap().p90_us, 6_000);
}

#[test]
fn the_percentile_ranks_agree_with_rounding_a_fraction() {
    for len in 1..300usize {
        let values: Vec<u128> = (0..len as u128).map(|v| v * 1_000).collect();
        let stats = stats_us(&values).unwrap();
        let rank = |p: f64| ((len as f64 - 1.0) * p).round() as u128;
        assert_eq!(stats.p50_us, rank(0.50), "{len}");
        assert_eq!(stats.p90_us, rank(0.90), "{len}");
    }
}

#[test]
fn fractions_of_a_microsecond_are_dropped_before_summing() {
    let stats = stats_us(&[1_999, 1_999, 999]).unwrap();
    assert_eq!(stats, Stats { p50_us: 1, p90_us: 1, sum_us: 2, count: 3 });
}

#[test]
fn the_order_of_the_measurements_does_not_matter() {
    let a = stats_us(&ms(&[3, 1, 4, 1, 5, 9, 2, 6])).unwrap();
    let b = stats_us(&ms(&[9, 6, 5, 4, 3, 2, 1, 1])).unwrap();
    assert_eq!(a, b);
}

#[test]
fn the_statistics_lie_between_the_extremes() {
    let stats = stats_us(&ms(&[3, 1, 4, 1, 5, 9, 2, 6])).unwrap();
    assert!(1_000 <= stats.p50_us && stats.p50_us <= stats.p90_us && stats.p90_us <= 9_000);
    assert!(8 * 1_000 <= stats.sum_us && stats.sum_us <= 8 * 9_000);
}

fn trace(create: u128, queries: &[u128], close: u128, entries: usize) -> ListingTrace {
    ListingTrace { create, queries: queries.to_vec(), close, entries }
}

#[test]
fn a_trace_adds_up_its_round_trips() {
    let t = trace(1_000, &[2_000, 3_000], 4_000, 7);
    assert_eq!(t.query_total(), Some(5_000));
    assert_eq!(t.total(), Some(10_000));
    assert_eq!(t.round_trips(), Some(4));
    assert_eq!(trace(0, &[], 0, 0).round_trips(), Some(2));
    assert_eq!(trace(0, &[u128::MAX, 1], 0, 0).query_total(), None);
    assert_eq!(trace(1, &[u128::MAX], 0, 0).total(), None);
    assert_eq!(trace(1, &[], u128::MAX, 0).total(), None);
    assert_eq!(trace(0, &[u128::MAX], 0, 0).total(), Some(u128::MAX));
}

#[test]
fn a_pass_is_summarized_phase_by_phase() {
    let one = |us: u128| Stats { p50_us: us, p90_us: us, sum_us: us, count: 1 };
    assert_eq!(
        summarize_phases(&[trace(1_000, &[2_000, 3_000], 4_000, 7)]).unwrap(),
        PhaseSummary {
            dirs: 1,
            entries: 7,
            round_trips: 4,
            create: one(1),
            first_query: one(2),
            query: one(5),
            close: one(4),
            total: one(10),
        }
    );
    // A directory without a query has no first query to count.
    let summary = summarize_phases(&[
        trace(1_000, &[2_000, 3_000], 4_000, 7),
        trace(3_000, &[], 6_000, 0),
    ])
    .unwrap();
    assert_eq!(summary.dirs, 2);
    assert_eq!(summary.entries, 7);
    assert_eq!(summary.round_trips, 6);
    assert_eq!(summary.first_query, one(2));
    assert_eq!(summary.create, Stats { p50_us: 3, p90_us: 3, sum_us: 4, count: 2 });
    assert_eq!(summary.total, Stats { p50_us: 10, p90_us: 10, sum_us: 19, count: 2 });
    // Nothing listed, nothing spent.
    let none = Stats { p50_us: 0, p90_us: 0, sum_us: 0, count: 0 };
    let summary = summarize_phases(&[]).unwrap();
    assert_eq!(summary.total, none);
    assert_eq!(summary.round_trips, 0);
    // Sums that cannot be held.
    assert_eq!(summarize_phases(&[trace(u128::MAX, &[1], 0, 0)]), None);
    assert_eq!(
        summarize_phases(&[trace(0, &[], 0, usize::MAX), trace(0, &[], 0, 1)]),
        None
    );
}

#[test]
fn long_paths_are_cut_from_the_left() {
    assert_eq!(short(""), "<root>");
    assert_eq!(short("photos"), "photos");
    let exactly = "a".repeat(38);
    assert_eq!(short(&exactly), exactly);
    let long = format!("{}{}", "x".repeat(10), "0123456789".repeat(3));
    assert_eq!(long.len(), 40);
    assert_eq!(short(&long), "...xxxxx012345678901234567890123456789");
    assert_eq!(short(&long).len(), 38);
    // Characters of two bytes, cut between two of them.
    let accents = format!("x{}", "é".repeat(20));
    assert_eq!(accents.len(), 41);
    let even = format!("{}{}", "é".repeat(3), "b".repeat(35));
    assert_eq!(short(&even), format!("...{}", "b".repeat(35)));
    assert!(!accents.is_char_boundary(accents.len() - 35));
}
