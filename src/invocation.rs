use vstd::prelude::*;
use vstd::string::StrSliceExecFns;
use vstd::utf8::encode_utf8;

verus! {

/// The flag that, as the first argument, bypasses the cache lookup.
pub open spec fn is_force_flag(arg: Seq<char>) -> bool {
    arg == seq!['-', 'f']
}

/// The text of each argument.
pub open spec fn texts(args: Seq<String>) -> Seq<Seq<char>> {
    args.map_values(|a: String| a@)
}

/// Whether the arguments (the program name first) ask to bypass the cache.
pub open spec fn forced(args: Seq<Seq<char>>) -> bool {
    args.len() > 1 && is_force_flag(args[1])
}

/// The arguments that make up the command: all but the program name and the flag.
pub open spec fn command_args(args: Seq<Seq<char>>) -> Seq<Seq<char>> {
    if args.len() == 0 {
        Seq::empty()
    } else if forced(args) {
        args.skip(2)
    } else {
        args.skip(1)
    }
}

/// The pieces, each preceded by one space.
pub open spec fn joined(parts: Seq<Seq<u8>>) -> Seq<u8>
    decreases parts.len(),
{
    if parts.len() == 0 {
        Seq::empty()
    } else {
        joined(parts.drop_last()) + seq![32u8] + parts.last()
    }
}

/// The command text, as UTF-8 bytes: each command argument preceded by a space.
pub open spec fn command_text(args: Seq<Seq<char>>) -> Seq<u8> {
    joined(command_args(args).map_values(|a: Seq<char>| encode_utf8(a)))
}

/// What one run of the tool was asked to do.
pub struct Invocation {
    /// Whether the cache lookup is skipped.
    pub force: bool,
    /// The command text handed to the shell and hashed into the fingerprint.
    pub command: Vec<u8>,
}

impl Invocation {
    /// Reads the command line `args`, the program name first.
    pub fn parse(args: &Vec<String>) -> (r: Invocation)
        ensures
            r.force == forced(texts(args@)),
            r.command@ == command_text(texts(args@)),
    {
        let ghost t = texts(args@);
        let force = args.len() > 1 && is_flag(&args[1]);
        let first: usize = if args.len() == 0 {
            0
        } else if force {
            2
        } else {
            1
        };
        let ghost parts = command_args(t).map_values(|a: Seq<char>| encode_utf8(a));
        proof {
            assert(t.len() == args@.len());
        }
        let mut command: Vec<u8> = Vec::new();
        let mut k: usize = first;
        while k < args.len()
            invariant
                first <= k <= args@.len(),
                t == texts(args@),
                parts == command_args(t).map_values(|a: Seq<char>| encode_utf8(a)),
                command_args(t) =~= t.skip(first as int),
                command@ == joined(parts.take(k - first)),
            decreases args@.len() - k,
        {
            let bytes = args[k].as_str().as_bytes();
            let ghost before = command@;
            command.push(32u8);
            let mut j: usize = 0;
            while j < bytes.len()
                invariant
                    j <= bytes@.len(),
                    command@ == before + seq![32u8] + bytes@.take(j as int),
                decreases bytes@.len() - j,
            {
                command.push(bytes[j]);
                j = j + 1;
                proof {
                    assert(bytes@.take(j as int) =~= bytes@.take(j - 1).push(bytes@[j - 1]));
                }
            }
            k = k + 1;
            proof {
                assert(bytes@.take(j as int) =~= bytes@);
                assert(parts[k - 1 - first] == encode_utf8(args@[k - 1]@));
                assert(parts.take(k - first).drop_last() =~= parts.take(k - 1 - first));
                assert(command@ =~= joined(parts.take(k - first)));
            }
        }
        proof {
            assert(parts.take(k - first) =~= parts);
        }
        Invocation { force, command }
    }
}

/// Whether `arg` is the force flag.
fn is_flag(arg: &String) -> (r: bool)
    ensures
        r == is_force_flag(arg@),
{
    let s = arg.as_str();
    let r = s.unicode_len() == 2 && s.get_char(0) == '-' && s.get_char(1) == 'f';
    proof {
        if r {
            assert(arg@ =~= seq!['-', 'f']);
        }
    }
    r
}

} // verus!
