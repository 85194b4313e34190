use vstd::prelude::*;

use crate::fingerprint::{fingerprint, Fingerprinter};
use crate::invocation::{command_text, forced, texts, Invocation};
use crate::store::{
    applied, found, lemma_stored_entry_found, lookup, stored, ArtifactWrite, Cache, Entry, Files,
};

verus! {

/// The decisions of one run of the tool, up to the point where the fingerprint is known.
///
/// The caller launches the command as soon as the session has started, hands every
/// chunk of standard input to `on_input` (and to the command while `on_input` says
/// so), and then asks for the key.
pub struct Session {
    invocation: Invocation,
    reads_input: bool,
    forwarding: bool,
    hasher: Fingerprinter,
}

/// The fingerprint of a run, and whether the store is to be consulted for it.
pub struct KeyReady {
    pub key: u64,
    pub lookup: bool,
}

/// What to do once the fingerprint is known.
pub enum Decision {
    /// Kill the command and emit the stored entry, stderr first.
    Replay(Entry),
    /// Wait for the command to finish.
    Await,
}

/// What to do once the command has finished.
pub struct Settlement {
    /// The files to write, in order, to store the captured output under the
    /// fingerprint: none when the command failed.
    pub writes: Vec<ArtifactWrite>,
    /// The output to emit, stderr first.
    pub emit: Entry,
}

impl Session {
    pub closed spec fn bypasses(&self) -> bool {
        self.invocation.force
    }

    pub closed spec fn command_bytes(&self) -> Seq<u8> {
        self.invocation.command@
    }

    /// Whether standard input is read: it is not when it is a terminal.
    pub closed spec fn reads_stdin(&self) -> bool {
        self.reads_input
    }

    /// Whether input chunks are still handed to the command.
    pub closed spec fn forwarding(&self) -> bool {
        self.forwarding
    }

    /// The input read so far.
    pub closed spec fn input(&self) -> Seq<u8> {
        self.hasher.input()
    }

    pub closed spec fn wf(&self) -> bool {
        &&& self.hasher.wf()
        &&& self.hasher.command() == self.invocation.command@
    }

    /// Starts a run for the command line `args` (the program name first).
    pub fn start(args: &Vec<String>, stdin_is_terminal: bool) -> (r: Session)
        ensures
            r.wf(),
            r.bypasses() == forced(texts(args@)),
            r.command_bytes() == command_text(texts(args@)),
            r.reads_stdin() == !stdin_is_terminal,
            r.forwarding(),
            r.input() == Seq::<u8>::empty(),
    {
        let invocation = Invocation::parse(args);
        let hasher = Fingerprinter::new(invocation.command.as_slice());
        Session { invocation, reads_input: !stdin_is_terminal, forwarding: true, hasher }
    }

    /// Whether the cache lookup is skipped.
    pub fn force(&self) -> (r: bool)
        ensures
            r == self.bypasses(),
    {
        self.invocation.force
    }

    /// The command text to hand to the shell.
    pub fn command(&self) -> (r: &Vec<u8>)
        ensures
            r@ == self.command_bytes(),
    {
        &self.invocation.command
    }

    /// Whether standard input is to be read.
    pub fn reads_input(&self) -> (r: bool)
        ensures
            r == self.reads_stdin(),
    {
        self.reads_input
    }

    /// Takes the next chunk of standard input; returns whether to hand it to the command.
    pub fn on_input(&mut self, chunk: &[u8]) -> (forward: bool)
        requires
            old(self).wf(),
            old(self).reads_stdin(),
        ensures
            final(self).wf(),
            final(self).input() == old(self).input() + chunk@,
            forward == old(self).forwarding(),
            final(self).forwarding() == old(self).forwarding(),
            final(self).bypasses() == old(self).bypasses(),
            final(self).command_bytes() == old(self).command_bytes(),
            final(self).reads_stdin() == old(self).reads_stdin(),
    {
        self.hasher.update(chunk);
        self.forwarding
    }

    /// Records that handing input to the command failed (it may have closed its input):
    /// later chunks are still hashed, and no longer handed to it.
    pub fn on_forward_failed(&mut self)
        requires
            old(self).wf(),
        ensures
            final(self).wf(),
            !final(self).forwarding(),
            final(self).input() == old(self).input(),
            final(self).bypasses() == old(self).bypasses(),
            final(self).command_bytes() == old(self).command_bytes(),
            final(self).reads_stdin() == old(self).reads_stdin(),
    {
        self.forwarding = false;
    }

    /// Ends the input and gives the fingerprint of the run.
    pub fn key(self) -> (r: KeyReady)
        requires
            self.wf(),
        ensures
            r.key == fingerprint(self.command_bytes(), self.input()),
            r.lookup == !self.bypasses(),
    {
        let lookup = !self.invocation.force;
        let key = self.hasher.finish();
        KeyReady { key, lookup }
    }
}

/// The entry to replay, as (stderr, stdout), if any: the one found, unless the
/// lookup was bypassed.
pub open spec fn replayed(force: bool, cached: Option<(Seq<u8>, Seq<u8>)>) -> Option<(Seq<u8>, Seq<u8>)> {
    if force {
        None
    } else {
        cached
    }
}

/// Decides between replaying the entry found in the store and waiting for the command.
pub fn decide(force: bool, cached: Option<Entry>) -> (r: Decision)
    ensures
        match r {
            Decision::Replay(e) => replayed(force, found(cached)) == Some(e@),
            Decision::Await => replayed(force, found(cached)) is None,
        },
{
    if force {
        Decision::Await
    } else {
        match cached {
            Some(e) => Decision::Replay(e),
            None => Decision::Await,
        }
    }
}

/// Settles a finished command: its output is stored under `key` in `cache` only
/// when it succeeded, and emitted in any case. Together with `decide`, this is a
/// run as `run` describes it, wherever the command was waited for.
pub fn settle(cache: &Cache, key: u64, success: bool, captured: Entry) -> (r: Settlement)
    ensures
        r.emit@ == captured@,
        forall|files: Files|
            #[trigger] applied(files, r.writes@) == if success {
                stored(files, cache.root@, key, captured.stderr@, captured.stdout@)
            } else {
                files
            },
        forall|files: Files, force: bool|
            replayed(force, lookup(files, cache.root@, key)) is None ==> #[trigger] run(
                files,
                cache.root@,
                force,
                key,
                success,
                captured.stderr@,
                captured.stdout@,
            ) == (applied(files, r.writes@), r.emit@, true),
{
    let writes = if success {
        cache.insert(key, &captured)
    } else {
        Vec::new()
    };
    proof {
        assert forall|files: Files|
            #[trigger] applied(files, writes@) == if success {
                stored(files, cache.root@, key, captured.stderr@, captured.stdout@)
            } else {
                files
            } by {
            if !success {
                assert(applied(files, writes@) == files);
            }
        }
    }
    Settlement { writes, emit: captured }
}

/// The outcome of one run of the tool on the store `files` under `root`, for the
/// fingerprint `key`, where the command, if it is waited for, ends with `success`
/// and writes `stderr` and `stdout`: the files after the run, what is emitted as
/// (stderr, stdout), and whether the command was waited for rather than killed.
pub open spec fn run(
    files: Files,
    root: Seq<u8>,
    force: bool,
    key: u64,
    success: bool,
    stderr: Seq<u8>,
    stdout: Seq<u8>,
) -> (Files, (Seq<u8>, Seq<u8>), bool) {
    match replayed(force, lookup(files, root, key)) {
        Some(entry) => (files, entry, false),
        None => (
            if success {
                stored(files, root, key, stderr, stdout)
            } else {
                files
            },
            (stderr, stdout),
            true,
        ),
    }
}

/// A run that executed its command to success makes the next run of the same
/// fingerprint without the bypass flag replay exactly the (stderr, stdout) it
/// captured, without waiting for the command, and leave the store as it was.
pub proof fn lemma_round_trip(
    files: Files,
    root: Seq<u8>,
    force: bool,
    key: u64,
    stderr: Seq<u8>,
    stdout: Seq<u8>,
    success2: bool,
    stderr2: Seq<u8>,
    stdout2: Seq<u8>,
)
    requires
        replayed(force, lookup(files, root, key)) is None,
    ensures
        ({
            let after = run(files, root, force, key, true, stderr, stdout).0;
            run(after, root, false, key, success2, stderr2, stdout2) == (after, (stderr, stdout), false)
        }),
{
    lemma_stored_entry_found(files, root, key, stderr, stdout);
}

/// A command that fails stores nothing: the files are left as they were, so an entry
/// found before is found after.
pub proof fn lemma_no_caching_on_failure(
    files: Files,
    root: Seq<u8>,
    force: bool,
    key: u64,
    stderr: Seq<u8>,
    stdout: Seq<u8>,
)
    ensures
        run(files, root, force, key, false, stderr, stdout).0 == files,
        lookup(run(files, root, force, key, false, stderr, stdout).0, root, key) == lookup(
            files,
            root,
            key,
        ),
{
}

/// With the bypass flag the command is always waited for and its own output emitted,
/// even where an entry exists; on success its output is then what the store holds.
pub proof fn lemma_bypass(
    files: Files,
    root: Seq<u8>,
    key: u64,
    success: bool,
    stderr: Seq<u8>,
    stdout: Seq<u8>,
)
    ensures
        run(files, root, true, key, success, stderr, stdout).2,
        run(files, root, true, key, success, stderr, stdout).1 == (stderr, stdout),
        success ==> lookup(run(files, root, true, key, success, stderr, stdout).0, root, key)
            == Some((stderr, stdout)),
{
    lemma_stored_entry_found(files, root, key, stderr, stdout);
}

} // verus!
