use std::collections::hash_map::DefaultHasher;
use std::collections::HashMap;
use std::hash::Hasher;

use caru::coordinator::{decide, settle, Decision, Session};
use caru::fingerprint::{Fingerprinter, BLOCK};
use caru::invocation::Invocation;
use caru::store::{ArtifactWrite, Cache, Entry, Stream};

fn args(list: &[&str]) -> Vec<String> {
    list.iter().map(|s| s.to_string()).collect()
}

fn key_of(command: &[u8], chunks: &[&[u8]]) -> u64 {
    let mut f = Fingerprinter::new(command);
    for c in chunks {
        f.update(c);
    }
    f.finish()
}

/// A store on disk, held in memory: path to contents.
struct Disk {
    files: HashMap<Vec<u8>, Vec<u8>>,
}

impl Disk {
    fn new() -> Disk {
        Disk { files: HashMap::new() }
    }

    fn get(&self, cache: &Cache, key: u64) -> Option<Entry> {
        let e = self.files.get(&cache.path(key, Stream::Stderr)).cloned();
        let o = self.files.get(&cache.path(key, Stream::Stdout)).cloned();
        Cache::entry_from_artifacts(e, o)
    }

    fn apply(&mut self, writes: Vec<ArtifactWrite>) {
        for w in writes {
            self.files.insert(w.path, w.bytes);
        }
    }
}

/// One run of the tool against `disk`, where the command, when waited for, ends
/// with `success` and writes `out` to stdout. Returns what is emitted as
/// (stderr, stdout), and whether the command was waited for.
fn run_tool(
    disk: &mut Disk,
    cache: &Cache,
    argv: &[&str],
    input: Option<&[u8]>,
    success: bool,
    out: &[u8],
) -> ((Vec<u8>, Vec<u8>), bool) {
    let mut session = Session::start(&args(argv), input.is_none());
    if let Some(bytes) = input {
        assert!(session.reads_input());
        session.on_input(bytes);
    }
    let ready = session.key();
    let cached = if ready.lookup { disk.get(cache, ready.key) } else { None };
    match decide(!ready.lookup, cached) {
        Decision::Replay(e) => ((e.stderr, e.stdout), false),
        Decision::Await => {
            let s = settle(cache, ready.key, success, Entry::new(Vec::new(), out.to_vec()));
            disk.apply(s.writes);
            ((s.emit.stderr, s.emit.stdout), true)
        }
    }
}

#[test]
fn parse_plain_command() {
    let inv = Invocation::parse(&args(&["caru", "echo", "hello"]));
    assert!(!inv.force);
    assert_eq!(inv.command, b" echo hello".to_vec());
}

#[test]
fn parse_force_flag() {
    let inv = Invocation::parse(&args(&["caru", "-f", "echo", "hello"]));
    assert!(inv.force);
    assert_eq!(inv.command, b" echo hello".to_vec());
}

#[test]
fn parse_flag_only_as_first_argument() {
    let inv = Invocation::parse(&args(&["caru", "echo", "-f"]));
    assert!(!inv.force);
    assert_eq!(inv.command, b" echo -f".to_vec());
    let inv = Invocation::parse(&args(&["caru", "-fx", "y"]));
    assert!(!inv.force);
    assert_eq!(inv.command, b" -fx y".to_vec());
}

#[test]
fn parse_without_command() {
    let inv = Invocation::parse(&args(&["caru"]));
    assert!(!inv.force);
    assert!(inv.command.is_empty());
    let inv = Invocation::parse(&args(&["caru", "-f"]));
    assert!(inv.force);
    assert!(inv.command.is_empty());
    let inv = Invocation::parse(&Vec::new());
    assert!(!inv.force);
    assert!(inv.command.is_empty());
}

#[test]
fn parse_keeps_utf8_bytes() {
    let inv = Invocation::parse(&args(&["caru", "echo", "é"]));
    assert_eq!(inv.command, " echo é".as_bytes().to_vec());
}

#[test]
fn fingerprint_matches_hasher_feed() {
    let mut h = DefaultHasher::new();
    h.write(&4u64.to_le_bytes());
    h.write(b" cat");
    h.write(b"a");
    assert_eq!(key_of(b" cat", &[b"a"]), h.finish());

    let mut h = DefaultHasher::new();
    h.write(&[4, 0, 0, 0, 0, 0, 0, 0]);
    h.write(b" cat");
    assert_eq!(key_of(b" cat", &[]), h.finish());
}

#[test]
fn fingerprint_hands_input_over_in_blocks() {
    let input: Vec<u8> = (0..(2 * BLOCK + 100)).map(|i| (i % 251) as u8).collect();
    let mut h = DefaultHasher::new();
    h.write(&6u64.to_le_bytes());
    h.write(b" wc -c");
    h.write(&input[..BLOCK]);
    h.write(&input[BLOCK..2 * BLOCK]);
    h.write(&input[2 * BLOCK..]);
    assert_eq!(key_of(b" wc -c", &[&input]), h.finish());
}

#[test]
fn fingerprint_ignores_chunking() {
    let input: Vec<u8> = (0..(BLOCK + 37)).map(|i| (i % 7) as u8).collect();
    let whole = key_of(b" sort", &[&input]);
    let split = key_of(b" sort", &[&input[..5], &input[5..BLOCK + 1], &[], &input[BLOCK + 1..]]);
    let bytes: Vec<&[u8]> = input.chunks(1).collect();
    let one_by_one = key_of(b" sort", &bytes);
    assert_eq!(whole, split);
    assert_eq!(whole, one_by_one);
}

#[test]
fn fingerprint_is_deterministic() {
    assert_eq!(key_of(b" echo hello", &[b"x"]), key_of(b" echo hello", &[b"x"]));
}

#[test]
fn fingerprint_depends_on_command_and_input() {
    let base = key_of(b" cat", &[b"a"]);
    assert_ne!(base, key_of(b" cat", &[b"b"]));
    assert_ne!(base, key_of(b" tac", &[b"a"]));
    assert_ne!(base, key_of(b" cat", &[]));
}

#[test]
fn command_end_is_kept_apart_from_input() {
    assert_ne!(key_of(b" echo", &[b" a"]), key_of(b" echo a", &[]));
    assert_ne!(key_of(b" a", &[b"b"]), key_of(b" ab", &[]));

    let mut piped = Session::start(&args(&["caru", "echo"]), false);
    piped.on_input(b" a");
    let plain = Session::start(&args(&["caru", "echo", "a"]), true);
    assert_ne!(piped.key().key, plain.key().key);
}

#[test]
fn piped_command_is_not_served_another_runs_output() {
    let cache = Cache::new(b"/s/".to_vec());
    let mut disk = Disk::new();
    let (_, ran) = run_tool(&mut disk, &cache, &["caru", "echo", "a"], None, true, b"a\n");
    assert!(ran);
    let (out, ran) = run_tool(&mut disk, &cache, &["caru", "echo"], Some(b" a"), true, b"\n");
    assert!(ran);
    assert_eq!(out.1, b"\n".to_vec());
}

#[test]
fn artifact_paths() {
    let cache = Cache::new(b"/home/u/.caru/".to_vec());
    assert_eq!(cache.path(255, Stream::Stdout), b"/home/u/.caru/ff.stdout".to_vec());
    assert_eq!(cache.path(255, Stream::Stderr), b"/home/u/.caru/ff.stderr".to_vec());
    assert_eq!(cache.path(0, Stream::Stdout), b"/home/u/.caru/0.stdout".to_vec());
    assert_eq!(
        cache.path(u64::MAX, Stream::Stderr),
        b"/home/u/.caru/ffffffffffffffff.stderr".to_vec()
    );
    assert_eq!(
        cache.path(0x1234_abcd, Stream::Stdout),
        format!("/home/u/.caru/{:x}.stdout", 0x1234_abcdu64).into_bytes()
    );
}

#[test]
fn entry_needs_both_artifacts() {
    assert!(Cache::entry_from_artifacts(None, Some(b"out".to_vec())).is_none());
    assert!(Cache::entry_from_artifacts(Some(b"err".to_vec()), None).is_none());
    assert!(Cache::entry_from_artifacts(None, None).is_none());
    let e = Cache::entry_from_artifacts(Some(b"err".to_vec()), Some(b"out".to_vec())).unwrap();
    assert_eq!(e.stderr, b"err".to_vec());
    assert_eq!(e.stdout, b"out".to_vec());
}

#[test]
fn insert_writes_stderr_then_stdout() {
    let cache = Cache::new(b"/s/".to_vec());
    let w = cache.insert(16, &Entry::new(b"e".to_vec(), b"o".to_vec()));
    assert_eq!(w.len(), 2);
    assert_eq!(w[0].path, b"/s/10.stderr".to_vec());
    assert_eq!(w[0].bytes, b"e".to_vec());
    assert_eq!(w[1].path, b"/s/10.stdout".to_vec());
    assert_eq!(w[1].bytes, b"o".to_vec());
}

#[test]
fn decide_replays_only_a_hit_without_force() {
    let hit = || Some(Entry::new(b"e".to_vec(), b"o".to_vec()));
    match decide(false, hit()) {
        Decision::Replay(e) => {
            assert_eq!(e.stderr, b"e".to_vec());
            assert_eq!(e.stdout, b"o".to_vec());
        }
        Decision::Await => panic!("a hit is replayed"),
    }
    assert!(matches!(decide(true, hit()), Decision::Await));
    assert!(matches!(decide(false, None), Decision::Await));
    assert!(matches!(decide(true, None), Decision::Await));
}

#[test]
fn settle_stores_only_success() {
    let cache = Cache::new(b"/s/".to_vec());
    let s = settle(&cache, 171, true, Entry::new(b"e".to_vec(), b"o".to_vec()));
    assert_eq!(s.writes.len(), 2);
    assert_eq!(s.writes[0].path, b"/s/ab.stderr".to_vec());
    assert_eq!(s.writes[0].bytes, b"e".to_vec());
    assert_eq!(s.writes[1].path, b"/s/ab.stdout".to_vec());
    assert_eq!(s.writes[1].bytes, b"o".to_vec());
    assert_eq!(s.emit.stderr, b"e".to_vec());
    assert_eq!(s.emit.stdout, b"o".to_vec());
    let s = settle(&cache, 171, false, Entry::new(b"bad".to_vec(), b"".to_vec()));
    assert!(s.writes.is_empty());
    assert_eq!(s.emit.stderr, b"bad".to_vec());
}

#[test]
fn session_without_input() {
    let s = Session::start(&args(&["caru", "-f", "ls"]), true);
    assert!(!s.reads_input());
    assert!(s.force());
    assert_eq!(s.command(), &b" ls".to_vec());
    let ready = s.key();
    assert!(!ready.lookup);
    assert_eq!(ready.key, key_of(b" ls", &[]));
}

#[test]
fn session_keeps_hashing_after_forward_failure() {
    let mut s = Session::start(&args(&["caru", "head", "-c1"]), false);
    assert!(s.reads_input());
    assert!(s.on_input(b"abc"));
    s.on_forward_failed();
    assert!(!s.on_input(b"def"));
    let ready = s.key();
    assert!(ready.lookup);
    assert_eq!(ready.key, key_of(b" head -c1", &[b"abcdef"]));
}

#[test]
fn round_trip_replays_stored_output() {
    let cache = Cache::new(b"/s/".to_vec());
    let mut disk = Disk::new();
    let (first, ran) = run_tool(&mut disk, &cache, &["caru", "seq", "3"], None, true, b"1\n2\n3\n");
    assert!(ran);
    let (second, ran) = run_tool(&mut disk, &cache, &["caru", "seq", "3"], None, true, b"other");
    assert!(!ran);
    assert_eq!(first, second);
    assert_eq!(second, (Vec::new(), b"1\n2\n3\n".to_vec()));
}

#[test]
fn failure_is_not_cached() {
    let cache = Cache::new(b"/s/".to_vec());
    let mut disk = Disk::new();
    let (_, ran) = run_tool(&mut disk, &cache, &["caru", "false"], None, false, b"");
    assert!(ran);
    assert!(disk.files.is_empty());
    let (_, ran) = run_tool(&mut disk, &cache, &["caru", "false"], None, false, b"");
    assert!(ran);

    run_tool(&mut disk, &cache, &["caru", "-f", "flaky"], None, true, b"good");
    let before = disk.files.clone();
    run_tool(&mut disk, &cache, &["caru", "-f", "flaky"], None, false, b"bad");
    assert_eq!(disk.files, before);
    let (emitted, ran) = run_tool(&mut disk, &cache, &["caru", "flaky"], None, false, b"bad");
    assert!(!ran);
    assert_eq!(emitted.1, b"good".to_vec());
}

#[test]
fn partial_entry_is_a_miss() {
    let cache = Cache::new(b"/s/".to_vec());
    let mut disk = Disk::new();
    run_tool(&mut disk, &cache, &["caru", "date"], None, true, b"now");
    let key = key_of(b" date", &[]);
    disk.files.remove(&cache.path(key, Stream::Stderr));
    assert!(disk.files.contains_key(&cache.path(key, Stream::Stdout)));
    assert!(disk.get(&cache, key).is_none());
    let (emitted, ran) = run_tool(&mut disk, &cache, &["caru", "date"], None, true, b"later");
    assert!(ran);
    assert_eq!(emitted.1, b"later".to_vec());
}

#[test]
fn echo_twice_runs_once() {
    let cache = Cache::new(b"/home/u/.caru/".to_vec());
    let mut disk = Disk::new();
    let mut executions = 0;
    let (out1, ran) = run_tool(&mut disk, &cache, &["caru", "echo", "hello"], None, true, b"hello\n");
    executions += ran as u32;
    let key = key_of(b" echo hello", &[]);
    assert!(disk.get(&cache, key).is_some());
    let (out2, ran) = run_tool(&mut disk, &cache, &["caru", "echo", "hello"], None, true, b"hello\n");
    executions += ran as u32;
    assert_eq!(out1.1, b"hello\n".to_vec());
    assert_eq!(out2.1, b"hello\n".to_vec());
    assert_eq!(executions, 1);
}

#[test]
fn force_runs_again() {
    let cache = Cache::new(b"/home/u/.caru/".to_vec());
    let mut disk = Disk::new();
    let mut executions = 0;
    let (_, ran) = run_tool(&mut disk, &cache, &["caru", "echo", "hello"], None, true, b"hello\n");
    executions += ran as u32;
    let (out, ran) = run_tool(&mut disk, &cache, &["caru", "-f", "echo", "hello"], None, true, b"hello\n");
    executions += ran as u32;
    assert_eq!(out.1, b"hello\n".to_vec());
    assert_eq!(executions, 2);

    let (_, ran) = run_tool(&mut disk, &cache, &["caru", "-f", "echo", "hello"], None, true, b"new\n");
    assert!(ran);
    let (out, ran) = run_tool(&mut disk, &cache, &["caru", "echo", "hello"], None, true, b"x");
    assert!(!ran);
    assert_eq!(out.1, b"new\n".to_vec());
}

#[test]
fn distinct_inputs_get_distinct_entries() {
    let cache = Cache::new(b"/s/".to_vec());
    let mut disk = Disk::new();
    let (_, ran_a) = run_tool(&mut disk, &cache, &["caru", "cat"], Some(b"a"), true, b"a");
    let (_, ran_b) = run_tool(&mut disk, &cache, &["caru", "cat"], Some(b"b"), true, b"b");
    assert!(ran_a && ran_b);
    let ka = key_of(b" cat", &[b"a"]);
    let kb = key_of(b" cat", &[b"b"]);
    assert_ne!(ka, kb);
    assert_eq!(disk.files.len(), 4);
    assert_eq!(disk.get(&cache, ka).unwrap().stdout, b"a".to_vec());
    assert_eq!(disk.get(&cache, kb).unwrap().stdout, b"b".to_vec());
    let (out, ran) = run_tool(&mut disk, &cache, &["caru", "cat"], Some(b"a"), true, b"zzz");
    assert!(!ran);
    assert_eq!(out.1, b"a".to_vec());
}
