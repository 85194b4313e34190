use vstd::prelude::*;

verus! {

/// One of the two output streams of a command.
#[derive(Clone, Copy, PartialEq, Eq, Structural, Debug)]
pub enum Stream {
    Stdout,
    Stderr,
}

/// The lowercase hexadecimal digit for `d < 16`, as an ASCII byte.
pub open spec fn hex_digit(d: nat) -> u8 {
    if d < 10 {
        (48 + d) as u8
    } else {
        (87 + d) as u8
    }
}

/// `n` in lowercase hexadecimal, without leading zeros ("0" for zero).
pub open spec fn hex(n: nat) -> Seq<u8>
    decreases n,
{
    if n < 16 {
        seq![hex_digit(n)]
    } else {
        hex(n / 16).push(hex_digit(n % 16))
    }
}

/// The suffix of the artifact that holds a stream: ".stdout" or ".stderr".
pub open spec fn suffix(stream: Stream) -> Seq<u8> {
    match stream {
        Stream::Stdout => seq![46u8, 115u8, 116u8, 100u8, 111u8, 117u8, 116u8],
        Stream::Stderr => seq![46u8, 115u8, 116u8, 100u8, 101u8, 114u8, 114u8],
    }
}

/// Where the artifact of `stream` for fingerprint `key` lives under `root`.
pub open spec fn artifact_path(root: Seq<u8>, key: u64, stream: Stream) -> Seq<u8> {
    root + hex(key as nat) + suffix(stream)
}

/// The files of a store, by path.
pub type Files = Map<Seq<u8>, Seq<u8>>;

/// The entry that `files` holds for `key`, as (stderr, stdout): present only when
/// both artifacts are.
pub open spec fn lookup(files: Files, root: Seq<u8>, key: u64) -> Option<(Seq<u8>, Seq<u8>)> {
    let e = artifact_path(root, key, Stream::Stderr);
    let o = artifact_path(root, key, Stream::Stdout);
    if files.contains_key(e) && files.contains_key(o) {
        Some((files[e], files[o]))
    } else {
        None
    }
}

/// `files` after storing the entry (stderr, stdout) for `key`: the stderr artifact
/// is written first, then the stdout artifact.
pub open spec fn stored(files: Files, root: Seq<u8>, key: u64, stderr: Seq<u8>, stdout: Seq<u8>) -> Files {
    files.insert(artifact_path(root, key, Stream::Stderr), stderr).insert(
        artifact_path(root, key, Stream::Stdout),
        stdout,
    )
}

/// An entry whose stderr artifact is missing is no entry: the lookup misses even
/// when the stdout artifact is there.
pub proof fn lemma_partial_entry_is_miss(files: Files, root: Seq<u8>, key: u64)
    requires
        !files.contains_key(artifact_path(root, key, Stream::Stderr)),
    ensures
        lookup(files, root, key) is None,
{
}

/// The two artifacts of one fingerprint live at different paths.
pub proof fn lemma_artifact_paths_differ(root: Seq<u8>, key: u64)
    ensures
        artifact_path(root, key, Stream::Stderr) != artifact_path(root, key, Stream::Stdout),
{
    let e = artifact_path(root, key, Stream::Stderr);
    let o = artifact_path(root, key, Stream::Stdout);
    let i = (root.len() + hex(key as nat).len() + 4) as int;
    assert(e[i] == 101u8);
    assert(o[i] == 111u8);
}

/// Storing an entry and looking it up under the same fingerprint gives that entry back.
pub proof fn lemma_stored_entry_found(files: Files, root: Seq<u8>, key: u64, stderr: Seq<u8>, stdout: Seq<u8>)
    ensures
        lookup(stored(files, root, key, stderr, stdout), root, key) == Some((stderr, stdout)),
{
    lemma_artifact_paths_differ(root, key);
}

/// What one successful run of a command wrote to its two streams.
pub struct Entry {
    pub stderr: Vec<u8>,
    pub stdout: Vec<u8>,
}

impl View for Entry {
    /// The entry as (stderr, stdout).
    type V = (Seq<u8>, Seq<u8>);

    open spec fn view(&self) -> (Seq<u8>, Seq<u8>) {
        (self.stderr@, self.stdout@)
    }
}

/// The entry found, if any, as (stderr, stdout).
pub open spec fn found(entry: Option<Entry>) -> Option<(Seq<u8>, Seq<u8>)> {
    match entry {
        Some(e) => Some(e@),
        None => None,
    }
}

impl Entry {
    pub fn new(stderr: Vec<u8>, stdout: Vec<u8>) -> (r: Entry)
        ensures
            r.stderr@ == stderr@,
            r.stdout@ == stdout@,
    {
        Entry { stderr, stdout }
    }
}

/// A file to write: its path and its contents.
pub struct ArtifactWrite {
    pub path: Vec<u8>,
    pub bytes: Vec<u8>,
}

/// `files` after the writes, made in order.
pub open spec fn applied(files: Files, writes: Seq<ArtifactWrite>) -> Files
    decreases writes.len(),
{
    if writes.len() == 0 {
        files
    } else {
        applied(files, writes.drop_last()).insert(writes.last().path@, writes.last().bytes@)
    }
}

/// The layout of a store of entries under a root directory.
pub struct Cache {
    /// The directory of the store, with a trailing separator.
    pub root: Vec<u8>,
}

impl Cache {
    pub fn new(root: Vec<u8>) -> (r: Cache)
        ensures
            r.root@ == root@,
    {
        Cache { root }
    }

    /// The path of the artifact of `stream` for fingerprint `key`.
    pub fn path(&self, key: u64, stream: Stream) -> (r: Vec<u8>)
        ensures
            r@ == artifact_path(self.root@, key, stream),
    {
        let mut r: Vec<u8> = Vec::new();
        let mut i: usize = 0;
        while i < self.root.len()
            invariant
                i <= self.root@.len(),
                r@ == self.root@.take(i as int),
            decreases self.root@.len() - i,
        {
            r.push(self.root[i]);
            i = i + 1;
            proof {
                assert(self.root@.take(i as int) =~= self.root@.take(i - 1).push(self.root@[i - 1]));
            }
        }
        proof {
            assert(self.root@.take(i as int) =~= self.root@);
        }
        push_hex(&mut r, key);
        let ghost before = r@;
        r.push(46u8);
        r.push(115u8);
        r.push(116u8);
        r.push(100u8);
        match stream {
            Stream::Stdout => {
                r.push(111u8);
                r.push(117u8);
                r.push(116u8);
            },
            Stream::Stderr => {
                r.push(101u8);
                r.push(114u8);
                r.push(114u8);
            },
        }
        proof {
            assert(r@ =~= before + suffix(stream));
        }
        r
    }

    /// The entry found, given what reading each artifact gave (`None` where it is
    /// missing or could not be read): a hit only when both were read.
    pub fn entry_from_artifacts(stderr: Option<Vec<u8>>, stdout: Option<Vec<u8>>) -> (r: Option<Entry>)
        ensures
            r is Some <==> (stderr is Some && stdout is Some),
            r is Some ==> r->0.stderr@ == stderr->0@ && r->0.stdout@ == stdout->0@,
    {
        match (stderr, stdout) {
            (Some(e), Some(o)) => Some(Entry::new(e, o)),
            _ => None,
        }
    }

    /// The files to write, in order, to store `entry` for fingerprint `key`.
    pub fn insert(&self, key: u64, entry: &Entry) -> (r: Vec<ArtifactWrite>)
        ensures
            r@.len() == 2,
            r@[0].path@ == artifact_path(self.root@, key, Stream::Stderr),
            r@[0].bytes@ == entry.stderr@,
            r@[1].path@ == artifact_path(self.root@, key, Stream::Stdout),
            r@[1].bytes@ == entry.stdout@,
            forall|files: Files|
                #[trigger] applied(files, r@) == stored(
                    files,
                    self.root@,
                    key,
                    entry.stderr@,
                    entry.stdout@,
                ),
    {
        let e = ArtifactWrite { path: self.path(key, Stream::Stderr), bytes: entry.stderr.clone() };
        let o = ArtifactWrite { path: self.path(key, Stream::Stdout), bytes: entry.stdout.clone() };
        let mut r: Vec<ArtifactWrite> = Vec::new();
        r.push(e);
        r.push(o);
        proof {
            reveal_with_fuel(applied, 3);
            assert(r@.drop_last().drop_last() =~= Seq::<ArtifactWrite>::empty());
            assert forall|files: Files|
                #[trigger] applied(files, r@) == stored(
                    files,
                    self.root@,
                    key,
                    entry.stderr@,
                    entry.stdout@,
                ) by {
                assert(r@.drop_last().last() == r@[0]);
            }
        }
        r
    }
}

/// Appends the lowercase hexadecimal digits of `n` to `out`.
fn push_hex(out: &mut Vec<u8>, n: u64)
    ensures
        final(out)@ == old(out)@ + hex(n as nat),
    decreases n,
{
    if n >= 16 {
        push_hex(out, n / 16);
    }
    let d = (n % 16) as u8;
    let c: u8 = if d < 10 {
        48 + d
    } else {
        87 + d
    };
    let ghost before = out@;
    out.push(c);
    proof {
        if n < 16 {
            assert(out@ =~= old(out)@ + hex(n as nat));
        } else {
            assert(hex(n as nat) == hex((n / 16) as nat).push(hex_digit((n % 16) as nat)));
            assert(out@ =~= old(out)@ + hex(n as nat));
        }
    }
}

} // verus!
