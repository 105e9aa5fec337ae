//! The line readers agree with the `regex` crate on the patterns they implement.

use regex::Regex;
use server_status::meminfo::match_memory_line;
use server_status::netdev::match_traffic_line;

const MEMORY: &str = r"^(?P<key>\S*):\s*(?P<value>\d*)\s*kB";
const TRAFFIC: &str =
    r"([^\s]+):[\s]{0,}(\d+)\s+(\d+)\s+(\d+)\s+(\d+)\s+(\d+)\s+(\d+)\s+(\d+)\s+(\d+)\s+(\d+)\s+(\d+)\s+(\d+)";

/// Every string over `alphabet` of length at most `max_len`.
fn all_strings(alphabet: &[char], max_len: usize) -> Vec<String> {
    let mut out = vec![String::new()];
    let mut frontier = vec![String::new()];
    for _ in 0..max_len {
        let mut next = Vec::new();
        for s in &frontier {
            for &c in alphabet {
                let mut t = s.clone();
                t.push(c);
                next.push(t);
            }
        }
        out.extend(next.iter().cloned());
        frontier = next;
    }
    out
}

fn check_memory(re: &Regex, line: &str) {
    let ours = match_memory_line(line);
    match re.captures(line) {
        Some(caps) => {
            let c = ours.unwrap_or_else(|| panic!("no match for {line:?}"));
            assert_eq!(c.key, &caps["key"], "{line:?}");
            assert_eq!(c.value, &caps["value"], "{line:?}");
        }
        None => assert!(ours.is_none(), "unexpected match for {line:?}"),
    }
}

fn check_traffic(re: &Regex, line: &str) {
    let ours = match_traffic_line(line);
    match re.captures(line) {
        Some(caps) => {
            let c = ours.unwrap_or_else(|| panic!("no match for {line:?}"));
            assert_eq!(c.name, &caps[1], "{line:?}");
            for k in 0..11 {
                assert_eq!(c.counters[k], &caps[k + 2], "{line:?}");
            }
        }
        None => assert!(ours.is_none(), "unexpected match for {line:?}"),
    }
}

#[test]
fn memory_reader_agrees_with_regex_on_short_lines() {
    let re = Regex::new(MEMORY).unwrap();
    for s in all_strings(&['a', ':', ' ', '1', 'k', 'B'], 6) {
        check_memory(&re, &s);
    }
    for s in all_strings(&[':', '5', '\u{661}', 'k', 'B'], 6) {
        check_memory(&re, &s);
    }
}

#[test]
fn memory_reader_agrees_with_regex_on_non_ascii_digits() {
    let re = Regex::new(MEMORY).unwrap();
    for line in ["A:5kB:\u{661}kB", "MemFree:5kB:\u{661}kB", "K: \u{967}\u{968} kB", "K:\u{1d7ce}kB"] {
        check_memory(&re, line);
    }
}

#[test]
fn memory_reader_agrees_with_regex_on_meminfo_like_lines() {
    let re = Regex::new(MEMORY).unwrap();
    let keys = ["MemTotal", "a:b", ":", "", "Huge:Pages", "x::"];
    let mids = ["", " ", "   ", "\t", "12", " 12", "12 ", " 1 2 ", "kB", "k B"];
    let tails = ["kB", " kB", "kB x", "KB", "k", "", "kBkB"];
    for k in keys {
        for m in mids {
            for t in tails {
                check_memory(&re, &format!("{k}:{m}{t}"));
                check_memory(&re, &format!("{k}{m}:{t}"));
            }
        }
    }
}

#[test]
fn traffic_reader_agrees_with_regex() {
    let re = Regex::new(TRAFFIC).unwrap();
    let names = ["eth0", "  lo", "a:b", "x", "", " ", "w:"];
    let seps = [":", ": ", ":  ", " :", "::"];
    for name in names {
        for sep in seps {
            for n in 9..=13 {
                let nums: Vec<String> = (0..n).map(|i| (i * 37 % 101).to_string()).collect();
                let line = format!("{name}{sep}{}", nums.join(" "));
                check_traffic(&re, &line);
                let line = format!("{name}{sep}{}", nums.join("\t "));
                check_traffic(&re, &line);
                let line = format!("junk {name}{sep}{} tail", nums.join(" "));
                check_traffic(&re, &line);
            }
        }
    }
    for s in all_strings(&['a', ':', ' ', '1'], 7) {
        check_traffic(&re, &s);
    }
    let digits = ["1", "\u{661}", "\u{967}2"];
    for a in digits {
        for b in digits {
            let line = format!("x: {a} 1 1 1 1 1 1 1 {b} 1 1 y: 2 2 2 2 2 2 2 2 2 2 2");
            check_traffic(&re, &line);
        }
    }
    check_traffic(&re, "Inter-|   Receive                                                |  Transmit");
    check_traffic(&re, " face |bytes    packets errs drop fifo frame compressed multicast|bytes");
}
