//! Which v10 networks are in use.

use vstd::prelude::*;

use crate::eval::nnue::v16::arch::PSQ_DIMS;
use crate::eval::nnue::v2::arch::{BIG_L1, SMALL_L1, THREAT_DIMS};
use crate::eval::nnue::v2::eval::LoadedNets;
use crate::eval::nnue::v2::loader::{parse_net, Net10Model, Sfnn10Net};
use crate::text::{eq_ignore_ascii_case, from_chars, same_ignoring_case, to_chars};

verus! {

/// The networks in use and the files that were named for them.
pub struct NetPair {
    pub nets: Option<LoadedNets>,
    pub generation: u64,
    pub pending_big: Option<String>,
    pub pending_small: Option<String>,
}

impl NetPair {
    /// Networks in use are complete.
    pub open spec fn wf(&self) -> bool {
        self.nets matches Some(n) ==> n.usable()
    }

    pub fn new() -> (r: NetPair)
        ensures
            r.wf(),
            r.nets is None,
            r.generation == 0,
            r.pending_big is None,
            r.pending_small is None,
    {
        NetPair { nets: None, generation: 0, pending_big: None, pending_small: None }
    }
}

/// Whether networks are in use.
pub fn maintenance_active(state: &NetPair) -> (r: bool)
    ensures
        r == state.nets is Some,
{
    state.nets.is_some()
}

/// What the contents of a file hold.
pub open spec fn file_network(contents: Option<Seq<u8>>, use_threats: bool, l1: int) -> Result<
    Net10Model,
    &'static str,
> {
    match contents {
        None => Err("cannot read network file"),
        Some(data) => parse_net(data, use_threats, l1),
    }
}

/// The bytes of a file that could be read.
pub open spec fn file_bytes(contents: Option<&[u8]>) -> Option<Seq<u8>> {
    match contents {
        Some(d) => Some(d@),
        None => None,
    }
}

fn read_network(contents: Option<&[u8]>, use_threats: bool, l1: usize) -> (r: Result<
    Sfnn10Net,
    &'static str,
>)
    requires
        l1 <= 1024,
    ensures
        match file_network(file_bytes(contents), use_threats, l1 as int) {
            Ok(m) => r matches Ok(net) && net.model() == m && net.sized() && net.l1 == l1,
            Err(e) => r == Err::<Sfnn10Net, &'static str>(e),
        },
{
    match contents {
        None => Err("cannot read network file"),
        Some(data) => {
            assert((THREAT_DIMS + PSQ_DIMS) * l1 == 102_384 * l1);
            Sfnn10Net::load_bytes(data, use_threats, l1)
        },
    }
}

/// The effect of loading both files.
pub open spec fn loaded(
    before: &NetPair,
    after: &NetPair,
    big: Option<Seq<u8>>,
    small: Option<Seq<u8>>,
    r: Result<(), &'static str>,
) -> bool {
    match file_network(big, true, 1024) {
        Err(e) => r == Err::<(), &'static str>(e) && *after == *before,
        Ok(b) => match file_network(small, false, 128) {
            Err(e) => r == Err::<(), &'static str>(e) && *after == *before,
            Ok(s) => {
                &&& r is Ok
                &&& after.nets matches Some(n) && n.big.model() == b && n.small.model() == s
                &&& after.generation == before.generation + 1
                &&& after.pending_big == before.pending_big
                &&& after.pending_small == before.pending_small
            },
        },
    }
}

/// Loads both networks from the contents of their files. If either is no
/// network, the ones in use stay.
pub fn load_nets(state: &mut NetPair, big: Option<&[u8]>, small: Option<&[u8]>) -> (r: Result<
    (),
    &'static str,
>)
    requires
        old(state).wf(),
        old(state).generation < u64::MAX,
    ensures
        final(state).wf(),
        loaded(old(state), final(state), file_bytes(big), file_bytes(small), r),
{
    let b: Sfnn10Net = match read_network(big, true, BIG_L1) {
        Ok(n) => n,
        Err(e) => {
            return Err(e);
        },
    };
    let s: Sfnn10Net = match read_network(small, false, SMALL_L1) {
        Ok(n) => n,
        Err(e) => {
            return Err(e);
        },
    };
    state.nets = Some(LoadedNets { big: b, small: s });
    state.generation = state.generation + 1;
    Ok(())
}

/// Takes the networks out of use.
pub fn unload_nets(state: &mut NetPair)
    requires
        old(state).generation < u64::MAX,
    ensures
        final(state).wf(),
        final(state).nets is None,
        final(state).generation == old(state).generation + 1,
        final(state).pending_big == old(state).pending_big,
        final(state).pending_small == old(state).pending_small,
{
    state.nets = None;
    state.generation = state.generation + 1;
}

/// The characters of an optional text.
pub open spec fn text_of(s: Option<String>) -> Option<Seq<char>> {
    match s {
        Some(t) => Some(t@),
        None => None,
    }
}

/// The file that a path names; an empty path names none.
pub open spec fn named_file(path: Seq<char>) -> Option<Seq<char>> {
    if path.len() == 0 {
        None
    } else {
        Some(path)
    }
}

/// Whether an option names the big network.
pub open spec fn names_big(which: Seq<char>) -> bool {
    same_ignoring_case(which, "EvalFile"@)
}

/// Whether an option names the small network.
pub open spec fn names_small(which: Seq<char>) -> bool {
    !names_big(which) && same_ignoring_case(which, "EvalFileSmall"@)
}

/// The big network's file after setting an option.
pub open spec fn next_big(state: &NetPair, which: Seq<char>, path: Seq<char>) -> Option<Seq<char>> {
    if names_big(which) {
        named_file(path)
    } else {
        text_of(state.pending_big)
    }
}

/// The small network's file after setting an option.
pub open spec fn next_small(state: &NetPair, which: Seq<char>, path: Seq<char>) -> Option<
    Seq<char>,
> {
    if names_small(which) {
        named_file(path)
    } else {
        text_of(state.pending_small)
    }
}

fn copy_text(s: &Option<String>) -> (r: Option<String>)
    ensures
        text_of(r) == text_of(*s),
{
    match s {
        Some(t) => {
            let chars: Vec<char> = to_chars(t.as_str());
            Some(from_chars(&chars))
        },
        None => None,
    }
}

fn file_named(path: &str) -> (r: Option<String>)
    ensures
        text_of(r) == named_file(path@),
{
    let chars: Vec<char> = to_chars(path);
    if chars.len() == 0 {
        None
    } else {
        Some(from_chars(&chars))
    }
}

/// The files that both networks would come from after setting an option: the
/// big one's, then the small one's.
pub fn pending_after(state: &NetPair, which: &str, path: &str) -> (r: (
    Option<String>,
    Option<String>,
))
    ensures
        text_of(r.0) == next_big(state, which@, path@),
        text_of(r.1) == next_small(state, which@, path@),
{
    if eq_ignore_ascii_case(which, "EvalFile") {
        (file_named(path), copy_text(&state.pending_small))
    } else if eq_ignore_ascii_case(which, "EvalFileSmall") {
        (copy_text(&state.pending_big), file_named(path))
    } else {
        (copy_text(&state.pending_big), copy_text(&state.pending_small))
    }
}

/// The effect of setting an option.
pub open spec fn eval_file_set(
    before: &NetPair,
    after: &NetPair,
    which: Seq<char>,
    path: Seq<char>,
    big: Option<Seq<u8>>,
    small: Option<Seq<u8>>,
    r: Result<&'static str, &'static str>,
) -> bool {
    if !names_big(which) && !names_small(which) {
        *after == *before && r == Err::<&'static str, &'static str>("unknown eval file option")
    } else {
        let b = next_big(before, which, path);
        let s = next_small(before, which, path);
        &&& text_of(after.pending_big) == b
        &&& text_of(after.pending_small) == s
        &&& if b is Some && s is Some {
            match (file_network(big, true, 1024), file_network(small, false, 128)) {
                (Ok(x), Ok(y)) => {
                    &&& r == Ok::<&'static str, &'static str>("SFNNv10 networks activated")
                    &&& after.nets matches Some(n) && n.big.model() == x && n.small.model() == y
                    &&& after.generation == before.generation + 1
                },
                (Err(e), _) => r == Err::<&'static str, &'static str>(e) && after.nets
                    == before.nets && after.generation == before.generation,
                (_, Err(e)) => r == Err::<&'static str, &'static str>(e) && after.nets
                    == before.nets && after.generation == before.generation,
            }
        } else if b is None && s is None {
            &&& r == Ok::<&'static str, &'static str>("SFNNv10 networks deactivated")
            &&& after.nets is None
            &&& after.generation == before.generation + 1
        } else {
            &&& r == Err::<&'static str, &'static str>("need both EvalFile and EvalFileSmall")
            &&& after.nets == before.nets
            &&& after.generation == before.generation
        }
    }
}

/// Sets the file of one network, given the contents of the files that both
/// would come from. Both files activate the networks, none takes them out of
/// use.
pub fn set_eval_file(
    state: &mut NetPair,
    which: &str,
    path: &str,
    big: Option<&[u8]>,
    small: Option<&[u8]>,
) -> (r: Result<&'static str, &'static str>)
    requires
        old(state).wf(),
        old(state).generation < u64::MAX,
    ensures
        final(state).wf(),
        eval_file_set(
            old(state),
            final(state),
            which@,
            path@,
            file_bytes(big),
            file_bytes(small),
            r,
        ),
{
    if eq_ignore_ascii_case(which, "EvalFile") {
        state.pending_big = file_named(path);
    } else if eq_ignore_ascii_case(which, "EvalFileSmall") {
        state.pending_small = file_named(path);
    } else {
        return Err("unknown eval file option");
    }
    if state.pending_big.is_some() && state.pending_small.is_some() {
        match load_nets(state, big, small) {
            Ok(_) => Ok("SFNNv10 networks activated"),
            Err(e) => Err(e),
        }
    } else if state.pending_big.is_none() && state.pending_small.is_none() {
        unload_nets(state);
        Ok("SFNNv10 networks deactivated")
    } else {
        Err("need both EvalFile and EvalFileSmall")
    }
}

/// Both files are needed: one alone activates nothing and changes no network,
/// and taking both names away deactivates.
pub proof fn law_both_files_are_needed(
    before: &NetPair,
    after: &NetPair,
    which: Seq<char>,
    path: Seq<char>,
    big: Option<Seq<u8>>,
    small: Option<Seq<u8>>,
    r: Result<&'static str, &'static str>,
)
    requires
        eval_file_set(before, after, which, path, big, small, r),
    ensures
        after.nets is Some && before.nets is None ==> after.pending_big is Some
            && after.pending_small is Some && r is Ok,
        r is Err ==> after.nets == before.nets && after.generation == before.generation,
        after.pending_big is Some != after.pending_small is Some && (names_big(which)
            || names_small(which)) ==> r is Err,
        path.len() == 0 && names_big(which) ==> after.pending_big is None,
        path.len() == 0 && names_small(which) ==> after.pending_small is None,
        path.len() > 0 && names_big(which) ==> text_of(after.pending_big) == Some(path)
            && text_of(after.pending_small) == text_of(before.pending_small),
        path.len() > 0 && names_small(which) ==> text_of(after.pending_small) == Some(path)
            && text_of(after.pending_big) == text_of(before.pending_big),
{
}

} // verus!
