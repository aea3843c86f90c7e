//! Plans and checks of network training.

use vstd::prelude::*;

use crate::board::BoardState;
use crate::eval::nnue::arr::{
    audit_adversarial_robustness, divergence, tolerated, AdversarialRobustnessReport, ArrConfig,
};
use crate::eval::nnue::dcn::{conditioned_on, DcnConfig, DcnModel};
use crate::eval::nnue::loader::Network;
use crate::eval::nnue::v16::arch::VERSION;
use crate::eval::nnue::position_score;
use crate::eval::nnue::refresh::{honest, summed, sums_ensured};
use crate::math::abs;
use crate::text::{from_chars, to_chars};

verus! {

/// A public collection of games.
#[derive(Debug, Clone, Copy, PartialEq, Eq)]
pub struct DatasetSource {
    pub name: &'static str,
    pub url: &'static str,
    pub kind: &'static str,
    pub notes: &'static str,
    pub priority: u8,
}

/// The known collections.
pub open spec fn known_sources() -> Seq<DatasetSource> {
    seq![
        DatasetSource {
            name: "Lichess Elite Database",
            url: "https://database.lichess.org/",
            kind: "PGN / zstd archives",
            notes: "Large public chess games dataset, good for opening and midgame diversity.",
            priority: 1,
        },
        DatasetSource {
            name: "MillionBase",
            url: "https://github.com/official-stockfish/MillionBase",
            kind: "PGN archive",
            notes: "Classic large public dataset used in engine training and data mining workflows.",
            priority: 2,
        },
        DatasetSource {
            name: "Lichess Games Export",
            url: "https://lichess.org/games/export",
            kind: "PGN export",
            notes: "Useful for selective downloads by opening, time control, and Elo range.",
            priority: 3,
        },
        DatasetSource {
            name: "FIDE / PGN Public Archives",
            url: "https://www.fide.com/",
            kind: "Official tournament PGNs",
            notes: "Good for high-quality master games and tournament-level positions.",
            priority: 4,
        },
        DatasetSource {
            name: "Chess.com Archive",
            url: "https://www.chess.com/games/archive",
            kind: "Partial game archives",
            notes: "Useful supplemental dataset when deeper public PGN corpora are needed.",
            priority: 5,
        },
    ]
}

impl DatasetSource {
    /// The known collections.
    pub fn candidate_datasets() -> (r: Vec<DatasetSource>)
        ensures
            r@ == known_sources(),
    {
        let mut r: Vec<DatasetSource> = Vec::new();
        r.push(
            DatasetSource {
                name: "Lichess Elite Database",
                url: "https://database.lichess.org/",
                kind: "PGN / zstd archives",
                notes: "Large public chess games dataset, good for opening and midgame diversity.",
                priority: 1,
            },
        );
        r.push(
            DatasetSource {
                name: "MillionBase",
                url: "https://github.com/official-stockfish/MillionBase",
                kind: "PGN archive",
                notes: "Classic large public dataset used in engine training and data mining workflows.",
                priority: 2,
            },
        );
        r.push(
            DatasetSource {
                name: "Lichess Games Export",
                url: "https://lichess.org/games/export",
                kind: "PGN export",
                notes: "Useful for selective downloads by opening, time control, and Elo range.",
                priority: 3,
            },
        );
        r.push(
            DatasetSource {
                name: "FIDE / PGN Public Archives",
                url: "https://www.fide.com/",
                kind: "Official tournament PGNs",
                notes: "Good for high-quality master games and tournament-level positions.",
                priority: 4,
            },
        );
        r.push(
            DatasetSource {
                name: "Chess.com Archive",
                url: "https://www.chess.com/games/archive",
                kind: "Partial game archives",
                notes: "Useful supplemental dataset when deeper public PGN corpora are needed.",
                priority: 5,
            },
        );
        assert(r@ =~= known_sources());
        r
    }
}

/// How a student network learns from a teacher engine.
#[derive(Debug, Clone, Default)]
pub struct TeacherStudentConfig {
    pub teacher_name: &'static str,
    pub teacher_engine_path: Option<String>,
    pub teacher_depth: u8,
    pub teacher_model_path: Option<String>,
    pub student_model_path: String,
    pub dataset_manifest: Vec<DatasetSource>,
    pub validation_suite: Vec<&'static str>,
    pub checkpoint_every: usize,
    pub max_epochs: usize,
}

fn text(s: &str) -> (r: String)
    ensures
        r@ == s@,
{
    let chars: Vec<char> = to_chars(s);
    from_chars(&chars)
}

impl TeacherStudentConfig {
    pub fn default_config() -> (r: Self)
        ensures
            r.teacher_name == "Stockfish 19",
            r.teacher_engine_path is None,
            r.teacher_depth == 12,
            r.teacher_model_path is None,
            r.student_model_path@ == "resources/nnue.bin"@,
            r.dataset_manifest@ == known_sources(),
            r.validation_suite@ == seq![
                "perft",
                "tactical-suite",
                "self-play-benchmark",
                "endgame-regression",
                "arr-adversarial-robustness",
            ],
            r.checkpoint_every == 5,
            r.max_epochs == 30,
    {
        let mut validation_suite: Vec<&'static str> = Vec::new();
        validation_suite.push("perft");
        validation_suite.push("tactical-suite");
        validation_suite.push("self-play-benchmark");
        validation_suite.push("endgame-regression");
        validation_suite.push("arr-adversarial-robustness");
        let r: TeacherStudentConfig = TeacherStudentConfig {
            teacher_name: "Stockfish 19",
            teacher_engine_path: None,
            teacher_depth: 12,
            teacher_model_path: None,
            student_model_path: text("resources/nnue.bin"),
            dataset_manifest: DatasetSource::candidate_datasets(),
            validation_suite,
            checkpoint_every: 5,
            max_epochs: 30,
        };
        assert(r.validation_suite@ =~= seq![
            "perft",
            "tactical-suite",
            "self-play-benchmark",
            "endgame-regression",
            "arr-adversarial-robustness",
        ]);
        r
    }
}

/// Where the files of a training run are.
#[derive(Debug, Clone, Default)]
pub struct NnuePipelineConfig {
    pub baseline_model_path: String,
    pub baseline_meta_path: String,
    pub teacher_model_path: Option<String>,
    pub teacher_engine_path: Option<String>,
    pub teacher_depth: u8,
    pub dataset_dir: String,
    pub checkpoints_dir: String,
    pub validation_dir: String,
    pub architecture_version: u8,
}

impl NnuePipelineConfig {
    pub fn default_paths() -> (r: Self)
        ensures
            r.baseline_model_path@ == "resources/nnue.bin"@,
            r.baseline_meta_path@ == "resources/nnue.bin.meta"@,
            r.teacher_model_path is None,
            r.teacher_engine_path is None,
            r.teacher_depth == 12,
            r.dataset_dir@ == "data"@,
            r.checkpoints_dir@ == "checkpoints"@,
            r.validation_dir@ == "validation"@,
            r.architecture_version == VERSION,
    {
        NnuePipelineConfig {
            baseline_model_path: text("resources/nnue.bin"),
            baseline_meta_path: text("resources/nnue.bin.meta"),
            teacher_model_path: None,
            teacher_engine_path: None,
            teacher_depth: 12,
            dataset_dir: text("data"),
            checkpoints_dir: text("checkpoints"),
            validation_dir: text("validation"),
            architecture_version: VERSION,
        }
    }
}

/// The steps of training a student.
pub fn teacher_student_training_plan() -> (r: &'static str)
    ensures
        r@
            == "1. Snapshot current NNUE baseline.\n2. Collect real self-play positions and teacher labels.\n3. Train a student model in Whale format without replacing the engine architecture.\n4. Validate on benchmark suites and keep only stronger checkpoints.\n5. Promote the best checkpoint after regression checks."@,
{
    "1. Snapshot current NNUE baseline.\n2. Collect real self-play positions and teacher labels.\n3. Train a student model in Whale format without replacing the engine architecture.\n4. Validate on benchmark suites and keep only stronger checkpoints.\n5. Promote the best checkpoint after regression checks."
}

/// A list in order of priority with one more source put in, behind those of
/// the same priority.
pub open spec fn placed(sorted: Seq<DatasetSource>, x: DatasetSource) -> Seq<DatasetSource>
    decreases sorted.len(),
{
    if sorted.len() == 0 || sorted.last().priority <= x.priority {
        sorted.push(x)
    } else {
        placed(sorted.drop_last(), x).push(sorted.last())
    }
}

/// The first `n` sources in order of priority; equal ones keep their order.
pub open spec fn by_priority(sources: Seq<DatasetSource>, n: int) -> Seq<DatasetSource>
    decreases n,
{
    if n <= 0 {
        Seq::empty()
    } else {
        placed(by_priority(sources, n - 1), sources[n - 1])
    }
}

fn place(sorted: &mut Vec<DatasetSource>, x: DatasetSource)
    ensures
        final(sorted)@ == placed(old(sorted)@, x),
    decreases old(sorted).len(),
{
    let n: usize = sorted.len();
    if n == 0 || sorted[n - 1].priority <= x.priority {
        sorted.push(x);
    } else {
        let last: DatasetSource = sorted[n - 1];
        sorted.pop();
        place(sorted, x);
        sorted.push(last);
    }
}

/// Sources in order of priority.
pub fn sort_by_priority(sources: &Vec<DatasetSource>) -> (r: Vec<DatasetSource>)
    ensures
        r@ == by_priority(sources@, sources.len() as int),
{
    let mut r: Vec<DatasetSource> = Vec::new();
    let mut i: usize = 0;
    assert(r@ =~= by_priority(sources@, 0));
    while i < sources.len()
        invariant
            i <= sources.len(),
            r@ == by_priority(sources@, i as int),
        decreases sources.len() - i,
    {
        place(&mut r, sources[i]);
        i = i + 1;
    }
    r
}

/// Names of the known collections, the most important first.
pub fn recommended_dataset_order() -> (r: Vec<&'static str>)
    ensures
        r@ == seq![
            "Lichess Elite Database",
            "MillionBase",
            "Lichess Games Export",
            "FIDE / PGN Public Archives",
            "Chess.com Archive",
        ],
{
    let sources: Vec<DatasetSource> = DatasetSource::candidate_datasets();
    let sorted: Vec<DatasetSource> = sort_by_priority(&sources);
    proof {
        let s = known_sources();
        reveal_with_fuel(by_priority, 6);
        assert(by_priority(s, 5) =~= s);
    }
    let mut names: Vec<&'static str> = Vec::new();
    let mut i: usize = 0;
    while i < sorted.len()
        invariant
            i <= sorted.len(),
            names.len() == i,
            forall|k: int| 0 <= k < i ==> #[trigger] names@[k] == sorted@[k].name,
        decreases sorted.len() - i,
    {
        names.push(sorted[i].name);
        i = i + 1;
    }
    assert(names@ =~= seq![
        "Lichess Elite Database",
        "MillionBase",
        "Lichess Games Export",
        "FIDE / PGN Public Archives",
        "Chess.com Archive",
    ]);
    names
}

/// Sorting by priority puts the sources in order.
pub proof fn law_sorted_by_priority(sources: Seq<DatasetSource>, n: int)
    requires
        0 <= n <= sources.len(),
    ensures
        by_priority(sources, n).len() == n,
        in_order(by_priority(sources, n)),
    decreases n,
{
    if n > 0 {
        law_sorted_by_priority(sources, n - 1);
        lemma_placed_in_order(by_priority(sources, n - 1), sources[n - 1]);
    }
}

/// Whether priorities never fall.
pub open spec fn in_order(list: Seq<DatasetSource>) -> bool {
    forall|i: int, j: int|
        0 <= i <= j < list.len() ==> (#[trigger] list[i]).priority <= (#[trigger] list[j]).priority
}

proof fn lemma_placed_in_order(sorted: Seq<DatasetSource>, x: DatasetSource)
    requires
        in_order(sorted),
    ensures
        placed(sorted, x).len() == sorted.len() + 1,
        in_order(placed(sorted, x)),
        forall|i: int|
            0 <= i < placed(sorted, x).len() ==> (#[trigger] placed(sorted, x)[i]).priority
                <= x.priority || (sorted.len() > 0 && placed(sorted, x)[i].priority
                <= sorted.last().priority),
    decreases sorted.len(),
{
    if sorted.len() == 0 || sorted.last().priority <= x.priority {
    } else {
        let init = sorted.drop_last();
        lemma_placed_in_order(init, x);
        let p = placed(init, x);
        assert forall|i: int| 0 <= i < p.len() implies (#[trigger] p[i]).priority
            <= sorted.last().priority by {
            if init.len() > 0 {
                assert(init.last() == sorted[sorted.len() - 2]);
            }
        }
    }
}

/// Sorting by priority neither loses nor invents sources.
pub proof fn law_sorting_keeps_sources(sources: Seq<DatasetSource>, n: int)
    requires
        0 <= n <= sources.len(),
    ensures
        by_priority(sources, n).to_multiset() == sources.take(n).to_multiset(),
    decreases n,
{
    broadcast use vstd::seq_lib::group_to_multiset_ensures;

    if n > 0 {
        law_sorting_keeps_sources(sources, n - 1);
        lemma_placed_keeps(by_priority(sources, n - 1), sources[n - 1]);
        assert(sources.take(n) =~= sources.take(n - 1).push(sources[n - 1]));
    } else {
        assert(sources.take(0) =~= Seq::<DatasetSource>::empty());
    }
}

proof fn lemma_placed_keeps(sorted: Seq<DatasetSource>, x: DatasetSource)
    ensures
        placed(sorted, x).to_multiset() == sorted.to_multiset().insert(x),
    decreases sorted.len(),
{
    broadcast use vstd::seq_lib::group_to_multiset_ensures;

    if sorted.len() == 0 || sorted.last().priority <= x.priority {
    } else {
        let init = sorted.drop_last();
        lemma_placed_keeps(init, x);
        assert(sorted =~= init.push(sorted.last()));
        assert(init.to_multiset().insert(x).insert(sorted.last())
            =~= init.to_multiset().insert(sorted.last()).insert(x));
    }
}

/// The steps of preparing a data set.
pub fn dataset_ingestion_plan() -> (r: Vec<&'static str>)
    ensures
        r@ == seq![
            "download public PGN archives from preferred sources",
            "filter by Elo range and time-control diversity",
            "normalize board states to Whale feature encoding",
            "extract teacher labels and tactical samples",
            "counterfactual-move-augmentation",
            "save a validation split separate from training split",
            "run benchmark validation before promoting the checkpoint",
        ],
{
    let mut r: Vec<&'static str> = Vec::new();
    r.push("download public PGN archives from preferred sources");
    r.push("filter by Elo range and time-control diversity");
    r.push("normalize board states to Whale feature encoding");
    r.push("extract teacher labels and tactical samples");
    r.push("counterfactual-move-augmentation");
    r.push("save a validation split separate from training split");
    r.push("run benchmark validation before promoting the checkpoint");
    assert(r@ =~= seq![
        "download public PGN archives from preferred sources",
        "filter by Elo range and time-control diversity",
        "normalize board states to Whale feature encoding",
        "extract teacher labels and tactical samples",
        "counterfactual-move-augmentation",
        "save a validation split separate from training split",
        "run benchmark validation before promoting the checkpoint",
    ]);
    r
}

/// Whether a data set is large enough to train on.
pub fn dataset_is_ready_for_training(total_positions: usize) -> (r: bool)
    ensures
        r == (total_positions >= 1_000_000),
{
    total_positions >= 1_000_000
}

/// Whether a network scores a position and its mirror image alike.
pub fn verify_checkpoint_adversarial_robustness(
    board: &mut BoardState,
    mirrored: &mut BoardState,
    network: &Network,
) -> (r: bool)
    requires
        network.wf(),
        summed(old(board)),
        honest(old(board), network),
        summed(old(mirrored)),
        honest(old(mirrored), network),
    ensures
        r == tolerated(
            divergence(
                position_score(old(board), network),
                position_score(old(mirrored), network),
            ),
            30,
        ),
        sums_ensured(old(board), final(board), network),
        sums_ensured(old(mirrored), final(mirrored), network),
{
    let report: AdversarialRobustnessReport = audit_adversarial_robustness(
        board,
        mirrored,
        network,
        ArrConfig::default(),
    );
    report.is_robust
}

/// The score of a typical position at some depth.
pub open spec fn score_at_depth(
    depth: u8,
    board: &BoardState,
    checkers: u64,
    queen_danger_us: u64,
    queen_danger_them: u64,
) -> int {
    conditioned_on(100, depth, board, checkers, queen_danger_us, queen_danger_them)
}

/// Whether two neighbouring depths score a position alike, given its checkers
/// and the squares where a queen of either side is attacked by a lesser piece.
pub fn verify_checkpoint_depth_consistency(
    board: &BoardState,
    checkers: u64,
    queen_danger_us: u64,
    queen_danger_them: u64,
) -> (r: bool)
    requires
        !(board.side_to_move is Both),
    ensures
        r == (abs(
            score_at_depth(20, board, checkers, queen_danger_us, queen_danger_them)
                - score_at_depth(19, board, checkers, queen_danger_us, queen_danger_them),
        ) <= 60),
{
    let config: DcnConfig = DcnConfig::default();
    let eval_d19: i16 = DcnModel::condition_evaluation(
        100,
        19,
        board,
        checkers,
        queen_danger_us,
        queen_danger_them,
        config,
    );
    let eval_d20: i16 = DcnModel::condition_evaluation(
        100,
        20,
        board,
        checkers,
        queen_danger_us,
        queen_danger_them,
        config,
    );
    let gap: i32 = eval_d20 as i32 - eval_d19 as i32;
    -60 <= gap && gap <= 60
}

} // verus!
