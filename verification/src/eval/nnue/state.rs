//! What an evaluation needs besides the board: the networks in use, the tables
//! built once, and the caches.

use vstd::prelude::*;

use crate::board::History;
use crate::eval::nnue::cache::{clear_eval_cache, EvalCache, EvalCacheEntry};
use crate::eval::nnue::loader::Network;
use crate::eval::nnue::threat_tables::ThreatLuts;
use crate::eval::nnue::v16::arch::L1;
use crate::eval::nnue::v16::eval::{side_of, FinnyCache, LoadedNets};
use crate::eval::nnue::v16::evaluate::law_loaded_net_is_sized;
use crate::eval::nnue::v16::freshen::no_ply_of;
use crate::eval::nnue::v16::loader::{parse_net_file, NetModel, Sfnn16Net};
use crate::eval::nnue::v16::threats::{build_threat_luts, v16_luts};
use crate::text::{
    eq_ignore_ascii_case, from_chars, push_all, push_str, same, same_ignoring_case, to_chars, trim,
    trimmed,
};

verus! {

/// The networks, tables and caches behind an evaluation.
pub struct EvalState {
    pub network: Network,
    pub nets: Option<LoadedNets>,
    pub generation: u64,
    pub pending_path: Option<String>,
    pub cache: EvalCache,
    pub finny: FinnyCache,
    pub luts: ThreatLuts,
    pub dual_net: bool,
}

/// Whether no cached sum comes from a later generation.
pub open spec fn cached_before(finny: &FinnyCache, generation: u64) -> bool {
    &&& finny.entries.len() == 128
    &&& forall|i: int|
        0 <= i < 128 && (#[trigger] finny.entries@[i]).valid ==> finny.entries@[i].generation
            <= generation
}

/// Whether every score was forgotten.
pub open spec fn scores_cleared(cache: &EvalCache) -> bool {
    &&& cache.wf()
    &&& forall|i: int|
        0 <= i < 262_144 ==> #[trigger] cache.entries@[i] == EvalCacheEntry::blank()
}

impl EvalState {
    pub open spec fn wf(&self) -> bool {
        &&& self.network.wf()
        &&& self.cache.wf()
        &&& self.cache.scores_in_range()
        &&& v16_luts(&self.luts)
        &&& cached_before(&self.finny, self.generation)
        &&& self.nets matches Some(n) ==> {
            &&& n.net.sized()
            &&& n.net.l1 == 1024
            &&& self.finny.wf(&n.net.transformer, self.generation)
        }
    }

    /// Everything that a change of network leaves alone.
    pub open spec fn same_frame(&self, other: &EvalState) -> bool {
        &&& self.network == other.network
        &&& self.finny == other.finny
        &&& self.luts == other.luts
        &&& self.dual_net == other.dual_net
    }

    /// A state with the small network only.
    pub fn new(network: Network) -> (r: EvalState)
        requires
            network.wf(),
        ensures
            r.wf(),
            r.network == network,
            r.nets is None,
            r.generation == 0,
            r.pending_path is None,
            r.dual_net,
            scores_cleared(&r.cache),
    {
        EvalState {
            network,
            nets: None,
            generation: 0,
            pending_path: None,
            cache: EvalCache::new(),
            finny: FinnyCache::new(),
            luts: build_threat_luts(),
            dual_net: true,
        }
    }
}

/// Turns the fast first look of the search on or off.
pub fn set_dual_net(state: &mut EvalState, enabled: bool)
    ensures
        final(state).dual_net == enabled,
        final(state).nets == old(state).nets,
        final(state).generation == old(state).generation,
        final(state).pending_path == old(state).pending_path,
        final(state).cache == old(state).cache,
        final(state).network == old(state).network,
        final(state).finny == old(state).finny,
        final(state).luts == old(state).luts,
{
    state.dual_net = enabled;
}

pub fn is_dual_net_enabled(state: &EvalState) -> (r: bool)
    ensures
        r == state.dual_net,
{
    state.dual_net
}

/// The network in use.
pub fn active_loaded_net(state: &EvalState) -> (r: Option<&LoadedNets>)
    ensures
        r is Some <==> state.nets is Some,
        r matches Some(n) ==> state.nets == Some(*n),
{
    match &state.nets {
        Some(n) => Some(n),
        None => None,
    }
}

/// Whether a network is in use.
pub fn maintenance_active(state: &EvalState) -> (r: bool)
    ensures
        r == state.nets is Some,
{
    state.nets.is_some()
}

/// What the contents of a file hold: a network with threats, else one without.
pub open spec fn file_network(contents: Option<Seq<u8>>) -> Result<NetModel, &'static str> {
    match contents {
        None => Err("cannot read network file"),
        Some(data) => match parse_net_file(data, true, 1024) {
            Ok(m) => Ok(m),
            Err(_) => parse_net_file(data, false, 1024),
        },
    }
}

/// The bytes of a file that could be read.
pub open spec fn file_bytes(contents: Option<&[u8]>) -> Option<Seq<u8>> {
    match contents {
        Some(d) => Some(d@),
        None => None,
    }
}

fn read_network(contents: Option<&[u8]>) -> (r: Result<Sfnn16Net, &'static str>)
    ensures
        match file_network(file_bytes(contents)) {
            Ok(m) => r matches Ok(net) && net.model() == m && net.sized() && net.l1 == 1024,
            Err(e) => r == Err::<Sfnn16Net, &'static str>(e),
        },
{
    match contents {
        None => Err("cannot read network file"),
        Some(data) => match Sfnn16Net::load_contents(data, true, L1) {
            Ok(net) => {
                proof {
                    law_loaded_net_is_sized(data@, true, 1024, &net);
                }
                Ok(net)
            },
            Err(_) => match Sfnn16Net::load_contents(data, false, L1) {
                Ok(net) => {
                    proof {
                        law_loaded_net_is_sized(data@, false, 1024, &net);
                    }
                    Ok(net)
                },
                Err(e) => Err(e),
            },
        },
    }
}

/// The effect of loading a file.
pub open spec fn loaded(
    before: &EvalState,
    after: &EvalState,
    path: Seq<char>,
    contents: Option<Seq<u8>>,
    r: Result<(), &'static str>,
) -> bool {
    match file_network(contents) {
        Ok(m) => {
            &&& r is Ok
            &&& after.nets matches Some(n) && n.net.model() == m
            &&& after.generation == before.generation + 1
            &&& after.pending_path matches Some(p) && p@ == path
            &&& scores_cleared(&after.cache)
            &&& after.same_frame(before)
        },
        Err(e) => r == Err::<(), &'static str>(e) && *after == *before,
    }
}

/// After a load, no ply summed before belongs to the network in use, so that
/// all of them are summed anew when they are next looked at.
pub proof fn law_load_makes_sums_stale(
    before: &EvalState,
    after: &EvalState,
    path: Seq<char>,
    contents: Option<Seq<u8>>,
    h: &History,
)
    requires
        loaded(before, after, path, contents, Ok(())),
        forall|k: int|
            0 <= k <= h.index ==> (#[trigger] h.sfnn16@[k]).generation <= before.generation,
    ensures
        no_ply_of(h, after.generation),
{
}

/// Loads a network from the contents of a file. Scores kept so far are
/// forgotten; a file that is no network changes nothing.
pub fn load_net(state: &mut EvalState, path: &str, contents: Option<&[u8]>) -> (r: Result<
    (),
    &'static str,
>)
    requires
        old(state).wf(),
        old(state).generation < u64::MAX,
    ensures
        final(state).wf(),
        loaded(old(state), final(state), path@, file_bytes(contents), r),
{
    let net: Sfnn16Net = match read_network(contents) {
        Ok(n) => n,
        Err(e) => {
            return Err(e);
        },
    };
    state.nets = Some(LoadedNets { net });
    let chars: Vec<char> = to_chars(path);
    state.pending_path = Some(from_chars(&chars));
    state.generation = state.generation + 1;
    clear_eval_cache(&mut state.cache);
    proof {
        let n = state.nets->0;
        assert forall|i: int| 0 <= i < 128 implies (#[trigger] state.finny.entries@[i]).ok(
            &n.net.transformer,
            state.generation,
            side_of(i % 2),
            i / 2,
        ) by {
            let e = old(state).finny.entries@[i];
            assert(e.valid ==> e.generation <= old(state).generation);
        }
    }
    Ok(())
}

/// Takes the network out of use and forgets the scores kept so far.
pub fn unload_nets(state: &mut EvalState)
    requires
        old(state).wf(),
        old(state).generation < u64::MAX,
    ensures
        final(state).wf(),
        final(state).nets is None,
        final(state).pending_path is None,
        final(state).generation == old(state).generation + 1,
        scores_cleared(&final(state).cache),
        final(state).same_frame(old(state)),
{
    state.nets = None;
    state.pending_path = None;
    state.generation = state.generation + 1;
    clear_eval_cache(&mut state.cache);
    proof {
        assert forall|i: int|
            0 <= i < 128 && (#[trigger] state.finny.entries@[i]).valid implies state.finny.entries@[i].generation
            <= state.generation by {
            let e = old(state).finny.entries@[i];
        }
    }
}

/// Whether a path asks for no network file at all.
pub open spec fn names_no_file(path: Seq<char>) -> bool {
    let t = trimmed(path);
    t.len() == 0 || t == "<empty>"@ || same_ignoring_case(t, "embedded"@)
}

/// Where a network of some name is looked for, in order.
pub open spec fn candidate(path: Seq<char>, k: int) -> Seq<char> {
    let t = trimmed(path);
    if k == 0 {
        t
    } else if k == 1 {
        "models/"@ + t
    } else if k == 2 {
        "models/"@ + t + ".nnue"@
    } else {
        "models/whale_"@ + t + ".nnue"@
    }
}

/// The first candidate that exists; the name itself where none does.
pub open spec fn resolved(path: Seq<char>, present: Seq<bool>) -> Seq<char> {
    if present[0] {
        candidate(path, 0)
    } else if present[1] {
        candidate(path, 1)
    } else if present[2] {
        candidate(path, 2)
    } else if present[3] {
        candidate(path, 3)
    } else {
        candidate(path, 0)
    }
}

fn candidate_text(path: &str, k: usize) -> (r: String)
    requires
        k < 4,
    ensures
        r@ == candidate(path@, k as int),
{
    let t: Vec<char> = trim(&to_chars(path));
    let mut out: Vec<char> = Vec::new();
    if k == 1 || k == 2 {
        push_str(&mut out, "models/");
    } else if k == 3 {
        push_str(&mut out, "models/whale_");
    }
    push_all(&mut out, &t);
    if k >= 2 {
        push_str(&mut out, ".nnue");
    }
    assert(out@ =~= candidate(path@, k as int));
    from_chars(&out)
}

/// The four places where a network of some name is looked for.
pub fn model_candidates(path: &str) -> (r: Vec<String>)
    ensures
        r.len() == 4,
        forall|k: int| 0 <= k < 4 ==> (#[trigger] r@[k])@ == candidate(path@, k),
{
    let mut r: Vec<String> = Vec::new();
    let mut k: usize = 0;
    while k < 4
        invariant
            k <= 4,
            r.len() == k,
            forall|i: int| 0 <= i < k ==> (#[trigger] r@[i])@ == candidate(path@, i),
        decreases 4 - k,
    {
        r.push(candidate_text(path, k));
        k = k + 1;
    }
    r
}

/// The file that a path stands for, given which of its candidates exist.
pub fn resolve_model_path(path: &str, present: &[bool; 4]) -> (r: Option<String>)
    ensures
        r is None <==> names_no_file(path@),
        r matches Some(p) ==> p@ == resolved(path@, present@),
{
    let t: Vec<char> = trim(&to_chars(path));
    let text: String = from_chars(&t);
    if t.len() == 0 || same(&t, &to_chars("<empty>")) || eq_ignore_ascii_case(
        text.as_str(),
        "embedded",
    ) {
        return None;
    }
    if present[0] {
        Some(candidate_text(path, 0))
    } else if present[1] {
        Some(candidate_text(path, 1))
    } else if present[2] {
        Some(candidate_text(path, 2))
    } else if present[3] {
        Some(candidate_text(path, 3))
    } else {
        Some(candidate_text(path, 0))
    }
}

/// Name of the network in use, given the stem of its file name where it has
/// one.
pub fn active_model_name(state: &EvalState, stem: Option<&str>) -> (r: String)
    ensures
        r@ == match state.pending_path {
            Some(p) => match stem {
                Some(s) => s@,
                None => p@,
            },
            None => "embedded"@,
        },
{
    let chars: Vec<char> = match &state.pending_path {
        Some(p) => match stem {
            Some(s) => to_chars(s),
            None => to_chars(p.as_str()),
        },
        None => to_chars("embedded"),
    };
    from_chars(&chars)
}

/// What an option that names a network file asks for.
pub enum EvalFileAction {
    Ignored,
    Unknown,
    Deactivate,
    Activate(String),
}

/// Decides what setting an option asks for, given which candidates of its path
/// exist.
pub fn eval_file_action(which: &str, path: &str, present: &[bool; 4]) -> (r: EvalFileAction)
    ensures
        r is Ignored <==> same_ignoring_case(which@, "EvalFileSmall"@),
        r is Unknown <==> !same_ignoring_case(which@, "EvalFileSmall"@) && !same_ignoring_case(
            which@,
            "EvalFile"@,
        ) && !same_ignoring_case(which@, "Model"@),
        r is Deactivate ==> names_no_file(path@),
        r matches EvalFileAction::Activate(p) ==> !names_no_file(path@) && p@ == resolved(
            path@,
            present@,
        ),
{
    if eq_ignore_ascii_case(which, "EvalFileSmall") {
        return EvalFileAction::Ignored;
    }
    if eq_ignore_ascii_case(which, "EvalFile") || eq_ignore_ascii_case(which, "Model") {
        match resolve_model_path(path, present) {
            Some(p) => EvalFileAction::Activate(p),
            None => EvalFileAction::Deactivate,
        }
    } else {
        EvalFileAction::Unknown
    }
}

/// The effect of setting an option.
pub open spec fn eval_file_set(
    before: &EvalState,
    after: &EvalState,
    action: &EvalFileAction,
    contents: Option<Seq<u8>>,
    r: Result<&'static str, &'static str>,
) -> bool {
    match *action {
        EvalFileAction::Ignored => *after == *before && r == Ok::<&'static str, &'static str>(
            "EvalFileSmall is deprecated and ignored (SFNNv16 uses a single network)",
        ),
        EvalFileAction::Unknown => *after == *before && r == Err::<&'static str, &'static str>(
            "unknown eval file option",
        ),
        EvalFileAction::Deactivate => {
            &&& r == Ok::<&'static str, &'static str>("SFNNv16 network deactivated")
            &&& after.nets is None
            &&& after.pending_path is None
            &&& after.generation == before.generation + 1
            &&& scores_cleared(&after.cache)
            &&& after.same_frame(before)
        },
        EvalFileAction::Activate(p) => {
            &&& after.pending_path matches Some(q) && q@ == p@
            &&& after.same_frame(before)
            &&& match file_network(contents) {
                Ok(m) => {
                    &&& r == Ok::<&'static str, &'static str>("SFNNv16 network activated")
                    &&& after.nets matches Some(n) && n.net.model() == m
                    &&& after.generation == before.generation + 1
                    &&& scores_cleared(&after.cache)
                },
                Err(e) => {
                    &&& r == Err::<&'static str, &'static str>(e)
                    &&& after.nets == before.nets
                    &&& after.generation == before.generation
                    &&& after.cache == before.cache
                },
            }
        },
    }
}

/// Carries out what an option asked for, given the contents of the file that
/// it named.
pub fn set_eval_file(state: &mut EvalState, action: EvalFileAction, contents: Option<&[u8]>) -> (r:
    Result<&'static str, &'static str>)
    requires
        old(state).wf(),
        old(state).generation < u64::MAX,
    ensures
        final(state).wf(),
        eval_file_set(old(state), final(state), &action, file_bytes(contents), r),
{
    match action {
        EvalFileAction::Ignored => Ok(
            "EvalFileSmall is deprecated and ignored (SFNNv16 uses a single network)",
        ),
        EvalFileAction::Unknown => Err("unknown eval file option"),
        EvalFileAction::Deactivate => {
            unload_nets(state);
            Ok("SFNNv16 network deactivated")
        },
        EvalFileAction::Activate(p) => {
            let chars: Vec<char> = to_chars(p.as_str());
            state.pending_path = Some(from_chars(&chars));
            match load_net(state, p.as_str(), contents) {
                Ok(_) => Ok("SFNNv16 network activated"),
                Err(e) => Err(e),
            }
        },
    }
}

/// Where a network is looked for at the start, best first.
pub const DEFAULT_CANDIDATES: [&'static str; 10] = [
    "models/whale_big_1.nnue",
    "models/whale_big.nnue",
    "models/whale_medium.nnue",
    "models/whale_small.nnue",
    "whale_big.nnue",
    "whale_medium.nnue",
    "whale_small.nnue",
    "v16/quantised.bin",
    "quantised.bin",
    "resources/sfnn16-big-checkpoint.bin",
];

/// Whether the file of a candidate exists and holds a network.
pub open spec fn loads(files: Seq<Option<Vec<u8>>>, k: int) -> bool {
    files[k] matches Some(d) && file_network(Some(d@)) is Ok
}

/// A network that is in use stays; otherwise the first candidate that holds
/// one is loaded, and without any nothing changes.
pub open spec fn default_chosen(
    before: &EvalState,
    after: &EvalState,
    files: Seq<Option<Vec<u8>>>,
    r: Option<&'static str>,
) -> bool {
    if before.nets is Some {
        r == Some("active") && *after == *before
    } else {
        ||| r is None && *after == *before && forall|k: int| 0 <= k < 10 ==> !loads(files, k)
        ||| exists|k: int|
            #![trigger DEFAULT_CANDIDATES@[k]]
            0 <= k < 10 && loads(files, k) && (forall|j: int| 0 <= j < k ==> !loads(files, j))
                && r == Some(DEFAULT_CANDIDATES@[k]) && loaded(
                before,
                after,
                DEFAULT_CANDIDATES@[k]@,
                Some(files[k]->0@),
                Ok(()),
            )
    }
}

/// Loads the first candidate that holds a network, given the contents of those
/// that exist. With a network in use there is nothing to do.
pub fn try_load_default_path(state: &mut EvalState, files: &Vec<Option<Vec<u8>>>) -> (r: Option<
    &'static str,
>)
    requires
        old(state).wf(),
        old(state).generation < u64::MAX,
        files.len() == 10,
    ensures
        final(state).wf(),
        default_chosen(old(state), final(state), files@, r),
{
    if maintenance_active(state) {
        return Some("active");
    }
    let mut k: usize = 0;
    while k < 10
        invariant
            k <= 10,
            files.len() == 10,
            old(state).wf(),
            old(state).generation < u64::MAX,
            old(state).nets is None,
            *state == *old(state),
            forall|j: int| 0 <= j < k ==> !loads(files@, j),
        decreases 10 - k,
    {
        if let Some(data) = &files[k] {
            let path: &'static str = DEFAULT_CANDIDATES[k];
            let r: Result<(), &'static str> = load_net(state, path, Some(data.as_slice()));
            if r.is_ok() {
                assert(loads(files@, k as int));
                assert(loaded(
                    old(state),
                    state,
                    DEFAULT_CANDIDATES@[k as int]@,
                    Some(files@[k as int]->0@),
                    Ok(()),
                ));
                return Some(path);
            }
        }
        k = k + 1;
    }
    None
}

/// Whether some default network is in use now.
pub fn try_load_default(state: &mut EvalState, files: &Vec<Option<Vec<u8>>>) -> (r: bool)
    requires
        old(state).wf(),
        old(state).generation < u64::MAX,
        files.len() == 10,
    ensures
        final(state).wf(),
        r == (old(state).nets is Some || exists|k: int| 0 <= k < 10 && loads(files@, k)),
        r == final(state).nets is Some,
        exists|p: Option<&'static str>|
            #[trigger] default_chosen(old(state), final(state), files@, p) && r == p is Some,
{
    let path: Option<&'static str> = try_load_default_path(state, files);
    assert(default_chosen(old(state), state, files@, path));
    path.is_some()
}

/// A model is the first of its candidates that is there: the name as given, in
/// the folder of models, with its ending, or with the usual prefix; and the
/// name as given where none is.
pub proof fn law_first_present_candidate(path: Seq<char>, present: Seq<bool>, k: int)
    requires
        present.len() == 4,
        0 <= k < 4,
        present[k],
        forall|j: int| 0 <= j < k ==> !#[trigger] present[j],
    ensures
        resolved(path, present) == candidate(path, k),
{
    assert(0 < k ==> !present[0]);
    assert(1 < k ==> !present[1]);
    assert(2 < k ==> !present[2]);
}

/// The candidates of a name, without the white space around it.
pub proof fn law_candidates_of_a_name(path: Seq<char>)
    ensures
        candidate(path, 0) == trimmed(path),
        candidate(path, 1) == "models/"@ + candidate(path, 0),
        candidate(path, 2) == candidate(path, 1) + ".nnue"@,
        candidate(path, 3) == "models/whale_"@ + candidate(path, 0) + ".nnue"@,
        resolved(path, seq![false, false, false, false]) == trimmed(path),
{
}

/// A file is read as a network with threats where it is one, and otherwise as
/// one without; a file that cannot be read is none.
pub proof fn law_threats_are_preferred(data: Seq<u8>, m: NetModel)
    ensures
        parse_net_file(data, true, 1024) == Ok::<NetModel, &'static str>(m) ==> file_network(
            Some(data),
        ) == Ok::<NetModel, &'static str>(m),
        parse_net_file(data, true, 1024) is Err ==> file_network(Some(data)) == parse_net_file(
            data,
            false,
            1024,
        ),
        file_network(None) is Err,
{
}

/// A load that fails changes nothing; one that succeeds clears the kept scores,
/// starts a new generation and leaves the small network and the settings.
pub proof fn law_failed_load_changes_nothing(
    before: &EvalState,
    after: &EvalState,
    path: Seq<char>,
    contents: Option<Seq<u8>>,
    r: Result<(), &'static str>,
)
    requires
        loaded(before, after, path, contents, r),
    ensures
        r is Err ==> *after == *before,
        r is Ok <==> file_network(contents) is Ok,
        r is Ok ==> after.generation != before.generation && after.network == before.network
            && after.dual_net == before.dual_net && after.nets is Some,
        r is Ok ==> forall|hash: u64, optimism: i32, halfmove: u8|
            hash != u64::MAX ==> #[trigger] after.cache.lookup(hash, optimism, halfmove) is None,
{
}

/// A blank name, the word in angle brackets and the embedded network name no
/// file, in any case and with any white space around them.
pub proof fn law_names_of_no_file(path: Seq<char>)
    ensures
        trimmed(path).len() == 0 ==> names_no_file(path),
        trimmed(path) == "<empty>"@ ==> names_no_file(path),
        same_ignoring_case(trimmed(path), "embedded"@) ==> names_no_file(path),
        names_no_file(path) && trimmed(path).len() > 0 && trimmed(path) != "<empty>"@
            ==> same_ignoring_case(trimmed(path), "embedded"@),
{
}

/// Where no network is in use, the first default file that holds one is loaded
/// and later ones do not matter; where none does, nothing changes.
pub proof fn law_first_default_is_loaded(
    before: &EvalState,
    after: &EvalState,
    files: Seq<Option<Vec<u8>>>,
    r: Option<&'static str>,
    k: int,
)
    requires
        default_chosen(before, after, files, r),
        before.nets is None,
        0 <= k < 10,
    ensures
        loads(files, k) && (forall|j: int| 0 <= j < k ==> !#[trigger] loads(files, j)) ==> r == Some(
            DEFAULT_CANDIDATES@[k],
        ) && after.nets is Some && (after.pending_path matches Some(p) && p@
            == DEFAULT_CANDIDATES@[k]@),
        (forall|j: int| 0 <= j < 10 ==> !#[trigger] loads(files, j)) ==> r is None && *after
            == *before,
{
}

} // verus!
