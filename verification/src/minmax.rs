//! The search: alpha-beta to a fixed depth, and its repetition at growing
//! depths while the time lasts.

use vstd::prelude::*;
use crate::{Color, Column};
use crate::board::{lemma_legal_moves_playable, Board, Position};
use crate::cache::{key_of, stored, BoardCache};
use crate::monte_carlo::{filled, lemma_useful_in_moves, useful_moves, useful_moves_of};
use crate::score::Score;
use crate::time::Timer;

verus! {

/// The games that are played to value one leaf.
pub const GAMES_PER_EVALUATION: u32 = 80;

/// What a search of one position found: the best line, last move first, its
/// value, and the moves played and positions visited to find it.
pub struct Found {
    pub variant: Seq<Column>,
    pub eval: Score,
    pub moves: u64,
    pub positions: u64,
}

/// The state of the search of one position between two of its moves.
pub struct Best {
    pub variant: Seq<Column>,
    pub eval: Score,
    pub alpha: Score,
    pub beta: Score,
    pub moves: u64,
    pub positions: u64,
    pub cut: bool,
}

/// The sum of two counts, at most `u64::MAX`.
pub open spec fn capped_sum(a: u64, b: u64) -> u64 {
    if a + b > u64::MAX {
        u64::MAX
    } else {
        (a + b) as u64
    }
}

impl Best {
    /// The state before the first move: no line, a value that any found value
    /// betters, and the bounds that the search was given.
    pub open spec fn start(maximize: bool, alpha: Score, beta: Score) -> Best {
        Best {
            variant: Seq::empty(),
            eval: if maximize {
                Score { ppm: -1_000_000i64 }
            } else {
                Score { ppm: 2_000_000 }
            },
            alpha,
            beta,
            moves: 0,
            positions: 0,
            cut: false,
        }
    }

    /// The state after the move `column` was searched and `child` was found
    /// below it: a strictly better value replaces the best one, the bound of
    /// the player to move closes in, and the search is cut where the bounds meet.
    pub open spec fn absorb(self, maximize: bool, column: Column, child: Found) -> Best {
        let better = if maximize {
            child.eval.ppm > self.eval.ppm
        } else {
            child.eval.ppm < self.eval.ppm
        };
        let alpha = if maximize && child.eval.ppm > self.alpha.ppm {
            child.eval
        } else {
            self.alpha
        };
        let beta = if !maximize && child.eval.ppm < self.beta.ppm {
            child.eval
        } else {
            self.beta
        };
        Best {
            variant: if better {
                child.variant.push(column)
            } else {
                self.variant
            },
            eval: if better {
                child.eval
            } else {
                self.eval
            },
            alpha,
            beta,
            moves: capped_sum(self.moves, child.moves),
            positions: capped_sum(self.positions, child.positions),
            cut: beta.ppm <= alpha.ppm,
        }
    }

    /// What the search reports when it ends in this state.
    pub open spec fn found(self) -> Found {
        Found {
            variant: self.variant,
            eval: self.eval,
            moves: self.moves,
            positions: self.positions,
        }
    }
}

/// The value of a position in which the game is over, for the player `own`:
/// 1 where `own` has won, 0 where the opponent has, a half where no move is left.
pub open spec fn settled(p: Position, own: Color) -> Option<Score> {
    match p.winner {
        Some(color) => if color == own {
            Some(Score { ppm: 1_000_000 })
        } else {
            Some(Score { ppm: 0 })
        },
        None => if p.moves.len() == 0 {
            Some(Score { ppm: 500_000 })
        } else {
            None
        },
    }
}

/// The test that a column is not `column`.
pub open spec fn is_not(column: Column) -> spec_fn(Column) -> bool {
    |c: Column| c != column
}

/// The main variant without the move that is made next.
pub open spec fn rest_of(main_variant: Seq<Column>) -> Seq<Column> {
    if main_variant.len() == 0 {
        main_variant
    } else {
        main_variant.drop_last()
    }
}

/// `moves` with the next move of the main variant, its last one, put first.
pub open spec fn forced_first(moves: Seq<Column>, main_variant: Seq<Column>) -> Seq<Column> {
    if main_variant.len() == 0 {
        moves
    } else {
        seq![main_variant.last()] + moves.filter(is_not(main_variant.last()))
    }
}

/// The moves that the search tries in a position, in their order.
pub open spec fn ordered_moves(p: Position, main_variant: Seq<Column>) -> Seq<Column> {
    forced_first(useful_moves_of(p), main_variant)
}

/// The main variant that the search takes along below its `k`-th move: what
/// is left of its own below the first, none below the others.
pub open spec fn variant_below(main_variant: Seq<Column>, k: int) -> Seq<Column> {
    if k == 1 {
        rest_of(main_variant)
    } else {
        Seq::empty()
    }
}

/// Names the state in which a search ends.
pub open spec fn ends_in(k: int, best: Best) -> bool {
    true
}

/// Names the state before a move, the cache before it, and what was found below it.
pub open spec fn goes_by(prev: Best, pc: Map<(u64, u64), Score>, child: Found) -> bool {
    true
}

/// What the function that values the leaves may return for a position.
pub open spec fn outcomes_of<F: Fn(&Board, Color, u32) -> (Score, u64)>(
    evaluate: F,
    own: Color,
) -> spec_fn(Position, (Score, u64)) -> bool {
    |p: Position, out: (Score, u64)|
        exists|b: Board|
            b@ == p && b.wf() && #[trigger] call_ensures(
                evaluate,
                (&b, own, GAMES_PER_EVALUATION),
                out,
            )
}

/// Whether a search of `p` to `depth` for the player `own`, with the main
/// variant `pv`, the bounds `alpha` and `beta` and the cache `c0`, can find
/// `out` and leave the cache as `c1`, where `leaf` says what the valuation of
/// a leaf may return.
///
/// A position in which the game is over has its value and costs nothing. At
/// depth 0 the value is the one in the cache; where there is none, it is
/// whatever the valuation returns, which is then stored. Deeper, the moves are
/// searched in their order until they are used up or the bounds meet.
pub open spec fn search(
    p: Position,
    own: Color,
    depth: nat,
    pv: Seq<Column>,
    alpha: Score,
    beta: Score,
    c0: Map<(u64, u64), Score>,
    leaf: spec_fn(Position, (Score, u64)) -> bool,
    out: Found,
    c1: Map<(u64, u64), Score>,
) -> bool
    decreases depth, 1nat, 0nat,
{
    match settled(p, own) {
        Some(value) => out == (Found {
            variant: Seq::empty(),
            eval: value,
            moves: 0,
            positions: 1,
        }) && c1 == c0,
        None => if depth == 0 {
            if c0.contains_key(key_of(p)) {
                out == (Found {
                    variant: Seq::empty(),
                    eval: c0[key_of(p)],
                    moves: 0,
                    positions: 1,
                }) && c1 == c0
            } else {
                leaf(p, (out.eval, out.moves)) && out.variant == Seq::<Column>::empty()
                    && out.positions == 1 && c1 == stored(c0, key_of(p), out.eval)
            }
        } else {
            exists|k: int, best: Best|
                #[trigger] ends_in(k, best) && 0 <= k <= ordered_moves(p, pv).len() && reached(
                    p,
                    own,
                    depth,
                    pv,
                    alpha,
                    beta,
                    c0,
                    leaf,
                    k,
                    best,
                    c1,
                ) && (k == ordered_moves(p, pv).len() || best.cut) && out == best.found()
        },
    }
}

/// Whether the search of `p` can stand in the state `best`, with the cache
/// `c`, after the first `k` of its moves.
pub open spec fn reached(
    p: Position,
    own: Color,
    depth: nat,
    pv: Seq<Column>,
    alpha: Score,
    beta: Score,
    c0: Map<(u64, u64), Score>,
    leaf: spec_fn(Position, (Score, u64)) -> bool,
    k: int,
    best: Best,
    c: Map<(u64, u64), Score>,
) -> bool
    decreases depth, 0nat, k,
{
    if depth == 0 || k < 0 || k > ordered_moves(p, pv).len() {
        false
    } else if k == 0 {
        best == Best::start(p.mover == own, alpha, beta) && c == c0
    } else {
        exists|prev: Best, pc: Map<(u64, u64), Score>, child: Found|
            #[trigger] goes_by(prev, pc, child) && reached(
                p,
                own,
                depth,
                pv,
                alpha,
                beta,
                c0,
                leaf,
                k - 1,
                prev,
                pc,
            ) && !prev.cut && search(
                p.play(ordered_moves(p, pv)[k - 1], true),
                own,
                (depth - 1) as nat,
                variant_below(pv, k),
                prev.alpha,
                prev.beta,
                pc,
                leaf,
                child,
                c,
            ) && best == prev.absorb(p.mover == own, ordered_moves(p, pv)[k - 1], child)
    }
}

/// Names what the searches before the last one found, the cache that they
/// left, and what the last one found.
pub open spec fn deepens_by(prev: Found, pc: Map<(u64, u64), Score>, last: Found) -> bool {
    true
}

/// Whether searches of `p` at the depths from 1 to `depth`, each from -1 to 2
/// and with the line of the one before as its main variant, can find `out`
/// and leave the cache as `c1`. `out` holds the line and the value of the last
/// search and the counts of all of them. A search is made only where the line
/// before it is as long as the depth before it.
pub open spec fn deepened(
    p: Position,
    own: Color,
    depth: nat,
    c0: Map<(u64, u64), Score>,
    leaf: spec_fn(Position, (Score, u64)) -> bool,
    out: Found,
    c1: Map<(u64, u64), Score>,
) -> bool
    decreases depth,
{
    if depth == 0 {
        out == (Found { variant: Seq::empty(), eval: Score { ppm: 0 }, moves: 0, positions: 0 })
            && c1 == c0
    } else {
        exists|prev: Found, pc: Map<(u64, u64), Score>, last: Found|
            #[trigger] deepens_by(prev, pc, last) && deepened(
                p,
                own,
                (depth - 1) as nat,
                c0,
                leaf,
                prev,
                pc,
            ) && prev.variant.len() >= depth - 1 && search(
                p,
                own,
                depth,
                prev.variant,
                Score { ppm: -1_000_000i64 },
                Score { ppm: 2_000_000 },
                pc,
                leaf,
                last,
                c1,
            ) && out == (Found {
                variant: last.variant,
                eval: last.eval,
                moves: capped_sum(prev.moves, last.moves),
                positions: capped_sum(prev.positions, last.positions),
            })
    }
}

/// Names the depth that a run of searches reached.
pub open spec fn stops_at(depth: nat) -> bool {
    true
}

/// Whether the search goes one level deeper: while fewer microseconds have
/// passed than `millis` milliseconds hold, and the last line is as long as
/// the depth that it was searched to.
pub fn goes_on(elapsed_micros: u64, millis: u64, line_len: usize, depth: u8) -> (r: bool)
    ensures
        r == (elapsed_micros < millis * 1_000 && line_len >= depth),
{
    (elapsed_micros as u128) < millis as u128 * 1_000 && line_len >= depth as usize
}

/// Searches the position at the depths 1, 2, 3 and so on, each time with the
/// line of the search before as the main variant. The clock is read when a
/// search ends, and `goes_on` says whether another search follows: not once
/// `millis` milliseconds have passed, and not once the last line is shorter
/// than its depth. What comes back is the line and the value of the last
/// search, and the moves played and positions visited in all of them.
pub fn iterative_minmax<F: Fn(&Board, Color, u32) -> (Score, u64)>(
    board: &Board,
    own_color: Color,
    millis: u64,
    cache: &mut BoardCache,
    evaluate: &F,
) -> (r: (Vec<Column>, Score, u64, u64))
    requires
        board.wf(),
        forall|b: Board|
            b.wf() ==> call_requires(*evaluate, (&b, own_color, GAMES_PER_EVALUATION)),
        forall|b: Board, out: (Score, u64)|
            call_ensures(*evaluate, (&b, own_color, GAMES_PER_EVALUATION), out)
                ==> out.0.is_probability(),
    ensures
        exists|depth: nat|
            #[trigger] stops_at(depth) && (depth == 0 <==> millis == 0) && depth <= 43 && (millis
                * 1_000 > u64::MAX ==> r.0@.len() < depth) && deepened(
                board@,
                own_color,
                depth,
                old(cache)@,
                outcomes_of(*evaluate, own_color),
                (Found { variant: r.0@, eval: r.1, moves: r.2, positions: r.3 }),
                final(cache)@,
            ),
        r.1.is_probability(),
        board@.can_play_all(r.0@.reverse()),
        millis > 0 && settled(board@, own_color) is None ==> r.0@.len() >= 1,
{
    let mut depth: u8 = 0;
    let mut main_variant: Vec<Column> = Vec::new();
    let mut elapsed: u64 = 0;
    let mut current_eval = Score::loss();
    let mut current_moves_played: u64 = 0;
    let mut current_positions: u64 = 0;

    let timer = Timer::new();
    let ghost leaf = outcomes_of(*evaluate, own_color);
    proof {
        assert(main_variant@.reverse() =~= main_variant@);
    }

    while goes_on(elapsed, millis, main_variant.len(), depth)
        invariant
            board.wf(),
            forall|b: Board|
                b.wf() ==> call_requires(*evaluate, (&b, own_color, GAMES_PER_EVALUATION)),
            forall|b: Board, out: (Score, u64)|
                call_ensures(*evaluate, (&b, own_color, GAMES_PER_EVALUATION), out)
                    ==> out.0.is_probability(),
            leaf == outcomes_of(*evaluate, own_color),
            deepened(
                board@,
                own_color,
                depth as nat,
                old(cache)@,
                leaf,
                (Found {
                    variant: main_variant@,
                    eval: current_eval,
                    moves: current_moves_played,
                    positions: current_positions,
                }),
                cache@,
            ),
            depth == 0 ==> elapsed == 0,
            depth > 0 ==> millis > 0,
            depth <= 43,
            current_eval.is_probability(),
            board@.can_play_all(main_variant@.reverse()),
            depth > 0 && settled(board@, own_color) is None ==> main_variant@.len() >= 1,
        decreases 43 - depth,
    {
        proof {
            lemma_line_length(board@, main_variant@.reverse());
        }
        let ghost prev = Found {
            variant: main_variant@,
            eval: current_eval,
            moves: current_moves_played,
            positions: current_positions,
        };
        let ghost pc = cache@;
        depth += 1;
        let (updated_main_variant, eval, moves_played, positions) = minmax(
            board,
            own_color,
            depth,
            main_variant.as_slice(),
            Score::lowest(),
            Score::highest(),
            cache,
            evaluate,
        );
        elapsed = timer.elapsed_micros();
        main_variant = updated_main_variant;
        current_eval = eval;
        current_moves_played = current_moves_played.saturating_add(moves_played);
        current_positions = current_positions.saturating_add(positions);
        proof {
            assert(deepens_by(
                prev,
                pc,
                (Found { variant: main_variant@, eval, moves: moves_played, positions }),
            ));
            lemma_line_length(board@, main_variant@.reverse());
        }
    }
    proof {
        assert(stops_at(depth as nat));
    }

    (main_variant, current_eval, current_moves_played, current_positions)
}

/// A line that can be played is no longer than the grid has free cells.
pub proof fn lemma_line_length(p: Position, line: Seq<Column>)
    requires
        p.heights.len() == 7,
        forall|c: int| 0 <= c < 7 ==> #[trigger] p.heights[c] <= 6,
        p.can_play_all(line),
    ensures
        line.len() <= 42 - filled(p.heights),
    decreases line.len(),
{
    if line.len() > 0 {
        lemma_line_length(p.play(line[0], true), line.skip(1));
    }
}

/// Puts the next move of the main variant, its last one, in front of `moves`,
/// and gives back the main variant without it.
pub fn put_main_variant_first(moves: &mut Vec<Column>, main_variant: &[Column]) -> (updated: Vec<
    Column,
>)
    ensures
        updated@ == rest_of(main_variant@),
        final(moves)@ == forced_first(old(moves)@, main_variant@),
{
    let mut updated_main_variant: Vec<Column> = Vec::new();
    let mut i: usize = 0;
    while i < main_variant.len()
        invariant
            i <= main_variant@.len(),
            updated_main_variant@ == main_variant@.take(i as int),
        decreases main_variant@.len() - i,
    {
        updated_main_variant.push(main_variant[i]);
        i += 1;
    }
    assert(main_variant@.take(main_variant@.len() as int) =~= main_variant@);
    match updated_main_variant.pop() {
        None => (),
        Some(column) => {
            let mut kept: Vec<Column> = Vec::new();
            let mut j: usize = 0;
            while j < moves.len()
                invariant
                    j <= moves@.len(),
                    kept@ == moves@.take(j as int).filter(is_not(column)),
                decreases moves@.len() - j,
            {
                proof {
                    assert(moves@.take(j + 1) =~= moves@.take(j as int).push(moves@[j as int]));
                    moves@.take(j as int).lemma_filter_push(moves@[j as int], is_not(column));
                }
                if moves[j] != column {
                    kept.push(moves[j]);
                }
                j += 1;
            }
            assert(moves@.take(moves@.len() as int) =~= moves@);
            kept.insert(0, column);
            assert(kept@ =~= seq![column] + moves@.filter(is_not(column)));
            *moves = kept;
        },
    }

    updated_main_variant
}

/// The value of the position for `own_color`, by alpha-beta search to `depth`
/// with the leaves valued by `evaluate` and remembered in `cache`. The best
/// line comes last move first, with the moves that the valuations played and
/// the positions that the search visited, each count at most `u64::MAX`.
#[verifier::loop_isolation(false)]
pub fn minmax<F: Fn(&Board, Color, u32) -> (Score, u64)>(
    board: &Board,
    own_color: Color,
    depth: u8,
    main_variant: &[Column],
    alpha: Score,
    beta: Score,
    cache: &mut BoardCache,
    evaluate: &F,
) -> (r: (Vec<Column>, Score, u64, u64))
    requires
        board.wf(),
        board@.can_play_all(main_variant@.reverse()),
        forall|b: Board|
            b.wf() ==> call_requires(*evaluate, (&b, own_color, GAMES_PER_EVALUATION)),
        forall|b: Board, out: (Score, u64)|
            call_ensures(*evaluate, (&b, own_color, GAMES_PER_EVALUATION), out)
                ==> out.0.is_probability(),
    ensures
        search(
            board@,
            own_color,
            depth as nat,
            main_variant@,
            alpha,
            beta,
            old(cache)@,
            outcomes_of(*evaluate, own_color),
            (Found { variant: r.0@, eval: r.1, moves: r.2, positions: r.3 }),
            final(cache)@,
        ),
        r.1.is_probability(),
        r.0@.len() <= depth,
        board@.can_play_all(r.0@.reverse()),
        depth > 0 && settled(board@, own_color) is None ==> r.0@.len() >= 1,
        r.3 >= 1,
    decreases depth,
{
    match board.winner {
        Some(color) => {
            if color == own_color {
                return (Vec::new(), Score::win(), 0, 1);
            } else {
                return (Vec::new(), Score::loss(), 0, 1);
            }
        },
        None => {
            if board.moves.len() == 0 {
                return (Vec::new(), Score::draw(), 0, 1);
            }
        },
    }

    if depth == 0 {
        let hit: Option<Score> = match cache.get(board) {
            Some(eval) => Some(*eval),
            None => None,
        };
        let (result, moves_played) = match hit {
            Some(eval) => (eval, 0),
            None => {
                let (eval, moves_played) = evaluate(board, own_color, GAMES_PER_EVALUATION);
                cache.store(board, eval);
                (eval, moves_played)
            },
        };
        return (Vec::new(), result, moves_played, 1);
    }
    let maximize = own_color == board.color_to_move;
    let mut best_variant: Vec<Column> = Vec::new();
    let mut best_eval = if maximize {
        Score::lowest()
    } else {
        Score::highest()
    };
    let mut alpha = alpha;
    let mut beta = beta;
    let mut num_moves: u64 = 0;
    let mut num_positions: u64 = 0;
    let mut cut = false;

    let ghost leaf = outcomes_of(*evaluate, own_color);
    let ghost alpha0 = alpha;
    let ghost beta0 = beta;
    proof {
        board.lemma_wf_playable();
    }
    let mut moves = useful_moves(board);
    let mut updated_main_variant = put_main_variant_first(&mut moves, main_variant);
    proof {
        lemma_ordered_moves(board@, main_variant@);
    }

    let mut i: usize = 0;
    while i < moves.len() && !cut
        invariant
            i <= moves@.len(),
            moves@ == ordered_moves(board@, main_variant@),
            updated_main_variant@ == variant_below(main_variant@, i + 1),
            reached(
                board@,
                own_color,
                depth as nat,
                main_variant@,
                alpha0,
                beta0,
                old(cache)@,
                leaf,
                i as int,
                (Best {
                    variant: best_variant@,
                    eval: best_eval,
                    alpha,
                    beta,
                    moves: num_moves,
                    positions: num_positions,
                    cut,
                }),
                cache@,
            ),
            best_variant@.len() <= depth,
            board@.can_play_all(best_variant@.reverse()),
            i == 0 ==> best_eval.ppm == if maximize {
                -1_000_000i64
            } else {
                2_000_000i64
            },
            i > 0 ==> best_variant@.len() >= 1 && best_eval.is_probability() && num_positions >= 1,
        decreases moves@.len() - i,
    {
        let column = moves[i];
        let mut sim = *board;
        sim.play_move(column, true);
        let ghost prev = Best {
            variant: best_variant@,
            eval: best_eval,
            alpha,
            beta,
            moves: num_moves,
            positions: num_positions,
            cut,
        };
        let ghost pc = cache@;
        proof {
            if i == 0 && main_variant@.len() > 0 {
                assert(main_variant@.reverse().skip(1) =~= main_variant@.drop_last().reverse());
            }
            assert(Seq::<Column>::empty().reverse() =~= Seq::<Column>::empty());
        }
        let (mut variant, eval, moves_played, positions) = minmax(
            &sim,
            own_color,
            depth - 1,
            updated_main_variant.as_slice(),
            alpha,
            beta,
            cache,
            evaluate,
        );
        let ghost child = Found {
            variant: variant@,
            eval,
            moves: moves_played,
            positions,
        };
        updated_main_variant = Vec::new();
        proof {
            let line = variant@.push(column).reverse();
            assert(line[0] == column);
            assert(line.skip(1) =~= variant@.reverse());
        }
        variant.push(column);

        num_moves = num_moves.saturating_add(moves_played);
        num_positions = num_positions.saturating_add(positions);

        if maximize {
            if eval.ppm > best_eval.ppm {
                best_eval = eval;
                best_variant = variant;
            }
            alpha = alpha.max(eval);
            if beta.ppm <= alpha.ppm {
                cut = true;  // beta cut-off
            }
        } else {
            if eval.ppm < best_eval.ppm {
                best_eval = eval;
                best_variant = variant;
            }
            beta = beta.min(eval);
            if beta.ppm <= alpha.ppm {
                cut = true;  // alpha cut-off
            }
        }
        i += 1;
        proof {
            let best = Best {
                variant: best_variant@,
                eval: best_eval,
                alpha,
                beta,
                moves: num_moves,
                positions: num_positions,
                cut,
            };
            assert(goes_by(prev, pc, child));
            assert(best == prev.absorb(maximize, column, child));
        }
    }

    proof {
        let best = Best {
            variant: best_variant@,
            eval: best_eval,
            alpha,
            beta,
            moves: num_moves,
            positions: num_positions,
            cut,
        };
        assert(reached(
            board@,
            own_color,
            depth as nat,
            main_variant@,
            alpha0,
            beta0,
            old(cache)@,
            leaf,
            i as int,
            best,
            cache@,
        ));
        assert(ends_in(i as int, best));
    }
    (best_variant, best_eval, num_moves, num_positions)
}

/// The moves that the search tries all have room, and there is one wherever a
/// move is listed.
pub proof fn lemma_ordered_moves(p: Position, main_variant: Seq<Column>)
    requires
        p.wf(),
        p.can_play_all(main_variant.reverse()),
    ensures
        forall|j: int|
            0 <= j < ordered_moves(p, main_variant).len() ==> p.can_play(
                #[trigger] ordered_moves(p, main_variant)[j],
            ),
        p.moves.len() > 0 ==> ordered_moves(p, main_variant).len() > 0,
{
    let useful = useful_moves_of(p);
    lemma_useful_in_moves(p);
    lemma_legal_moves_playable(p.heights);
    assert forall|c: Column| useful.contains(c) implies p.can_play(c) by {
        assert(p.moves.contains(c));
    }
    if main_variant.len() > 0 {
        let first = main_variant.last();
        assert(main_variant.reverse()[0] == first);
        let others = useful.filter(is_not(first));
        assert forall|j: int| 0 <= j < ordered_moves(p, main_variant).len() implies p.can_play(
            #[trigger] ordered_moves(p, main_variant)[j],
        ) by {
            if j > 0 {
                assert(others.contains(others[j - 1]));
                useful.lemma_filter_contains_rev(is_not(first), others[j - 1]);
            }
        }
    } else {
        assert forall|j: int| 0 <= j < useful.len() implies p.can_play(#[trigger] useful[j]) by {
            assert(useful.contains(useful[j]));
        }
    }
}

} // verus!
