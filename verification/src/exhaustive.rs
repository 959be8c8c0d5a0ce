//! Plain minimax, which looks at every move, and the proof that the search
//! with bounds finds the same value.

use vstd::prelude::*;
use crate::{Color, Column};
use crate::board::Position;
use crate::cache::{key_of, mirror_of, stored};
use crate::minmax::{
    deepened, deepens_by, ends_in, goes_by, is_not, ordered_moves, reached, search, settled,
    variant_below, Best, Found,
};
use crate::monte_carlo::{lemma_useful_in_moves, useful_moves_of};
use crate::score::Score;

verus! {

/// The value of a position by plain minimax to `depth`, in millionths: the
/// value of the game where it is over, the value `leaf_value` of the
/// position's key at depth 0, and else the best of the values of the
/// positions after the moves worth trying, for the player to move.
pub open spec fn minimax(
    p: Position,
    own: Color,
    depth: nat,
    leaf_value: spec_fn((u64, u64)) -> Score,
) -> int
    decreases depth, 1nat, 0nat,
{
    match settled(p, own) {
        Some(value) => value.ppm as int,
        None => if depth == 0 {
            leaf_value(key_of(p)).ppm as int
        } else {
            best_among(
                p,
                own,
                depth,
                leaf_value,
                useful_moves_of(p),
                useful_moves_of(p).len() as int,
            )
        },
    }
}

/// The minimax value of the position after the move `column`, one level down.
pub open spec fn value_after(
    p: Position,
    own: Color,
    depth: nat,
    leaf_value: spec_fn((u64, u64)) -> Score,
    column: Column,
) -> int {
    minimax(p.play(column, true), own, (depth - 1) as nat, leaf_value)
}

/// Whether the value `a` is worse than `b` for the player to move.
pub open spec fn worse(maximize: bool, a: int, b: int) -> bool {
    if maximize {
        a < b
    } else {
        a > b
    }
}

/// Whether `column` is the first of `moves` after which the position has the
/// value `value`, and every move before it leaves a worse one.
pub open spec fn first_best(
    p: Position,
    own: Color,
    depth: nat,
    leaf_value: spec_fn((u64, u64)) -> Score,
    moves: Seq<Column>,
    column: Column,
    value: int,
) -> bool {
    exists|i: int|
        0 <= i < moves.len() && moves[i] == column && #[trigger] value_after(
            p,
            own,
            depth,
            leaf_value,
            moves[i],
        ) == value && forall|j: int|
            0 <= j < i ==> worse(
                p.mover == own,
                #[trigger] value_after(p, own, depth, leaf_value, moves[j]),
                value,
            )
}

/// The best of the values after the first `n` of `moves`: the largest where
/// `own` is to move, the smallest where the opponent is. Without a move it is
/// -1 or 2, which no value reaches.
pub open spec fn best_among(
    p: Position,
    own: Color,
    depth: nat,
    leaf_value: spec_fn((u64, u64)) -> Score,
    moves: Seq<Column>,
    n: int,
) -> int
    decreases depth, 0nat, n,
{
    if depth == 0 || n <= 0 || n > moves.len() {
        if p.mover == own {
            -1_000_000
        } else {
            2_000_000
        }
    } else {
        let value = minimax(p.play(moves[n - 1], true), own, (depth - 1) as nat, leaf_value);
        let rest = best_among(p, own, depth, leaf_value, moves, n - 1);
        if p.mover == own {
            if value > rest {
                value
            } else {
                rest
            }
        } else {
            if value < rest {
                value
            } else {
                rest
            }
        }
    }
}

/// Whether the line `variant`, last move first, is made of moves worth trying.
pub open spec fn follows_useful(p: Position, variant: Seq<Column>) -> bool
    decreases variant.len(),
{
    variant.len() > 0 ==> useful_moves_of(p).contains(variant.last()) && follows_useful(
        p.play(variant.last(), true),
        variant.drop_last(),
    )
}

/// Every value in the cache is the one that `leaf_value` gives to its key.
pub open spec fn coherent(
    c: Map<(u64, u64), Score>,
    leaf_value: spec_fn((u64, u64)) -> Score,
) -> bool {
    forall|k: (u64, u64)| c.contains_key(k) ==> c[k] == #[trigger] leaf_value(k)
}

/// `leaf_value` gives probabilities, gives a position and its mirror image the
/// same, and gives the position with the players swapped what is left of the
/// whole.
pub open spec fn symmetric(leaf_value: spec_fn((u64, u64)) -> Score) -> bool {
    forall|k: (u64, u64)|
        (#[trigger] leaf_value(k)).is_probability() && leaf_value((k.1, k.0)).ppm == 1_000_000
            - leaf_value(k).ppm && leaf_value((mirror_of(k.0), mirror_of(k.1))) == leaf_value(k)
}

/// The valuation of the leaves returns nothing but what `leaf_value` gives.
pub open spec fn valued_by(
    leaf: spec_fn(Position, (Score, u64)) -> bool,
    leaf_value: spec_fn((u64, u64)) -> Score,
) -> bool {
    forall|q: Position, out: (Score, u64)| #[trigger] leaf(q, out) ==> out.0 == leaf_value(key_of(q))
}

/// How a value `found` between the bounds stands to the true value `exact`:
/// strictly between the bounds it is the true value; at or below the lower
/// bound the true value is no larger; at or above the upper bound the true
/// value is no smaller.
pub open spec fn within(alpha: Score, beta: Score, found: int, exact: int) -> bool {
    &&& alpha.ppm < found < beta.ppm ==> exact == found
    &&& found <= alpha.ppm ==> exact <= found
    &&& found >= beta.ppm ==> exact >= found
}

/// What holds of the state of a search after its first `k` moves.
pub open spec fn on_course(
    p: Position,
    own: Color,
    depth: nat,
    pv: Seq<Column>,
    alpha: Score,
    beta: Score,
    leaf_value: spec_fn((u64, u64)) -> Score,
    k: int,
    best: Best,
) -> bool {
    let so_far = best_among(p, own, depth, leaf_value, ordered_moves(p, pv), k);
    let found = best.eval.ppm as int;
    let leads = first_best(
        p,
        own,
        depth,
        leaf_value,
        ordered_moves(p, pv),
        best.variant.last(),
        found,
    );
    &&& best.cut == (best.beta.ppm <= best.alpha.ppm)
    &&& follows_useful(p, best.variant)
    &&& k > 0 ==> best.eval.is_probability() && best.variant.len() > 0
    &&& if p.mover == own {
        &&& best.beta == beta
        &&& best.alpha.ppm == if found > alpha.ppm {
            found
        } else {
            alpha.ppm as int
        }
        &&& k == 0 ==> found == -1_000_000
        &&& found >= beta.ppm ==> so_far >= found
        &&& found < beta.ppm ==> so_far <= found && (found > alpha.ppm ==> so_far == found
            && leads)
    } else {
        &&& best.alpha == alpha
        &&& best.beta.ppm == if found < beta.ppm {
            found
        } else {
            beta.ppm as int
        }
        &&& k == 0 ==> found == 2_000_000
        &&& found <= alpha.ppm ==> so_far <= found
        &&& found > alpha.ppm ==> so_far >= found && (found < beta.ppm ==> so_far == found
            && leads)
    }
}

/// Storing the value that `leaf_value` gives keeps the cache coherent.
proof fn lemma_stored_coherent(
    c: Map<(u64, u64), Score>,
    key: (u64, u64),
    leaf_value: spec_fn((u64, u64)) -> Score,
)
    requires
        coherent(c, leaf_value),
        symmetric(leaf_value),
    ensures
        coherent(stored(c, key, leaf_value(key)), leaf_value),
{
    let swapped = (key.1, key.0);
    let mirrored = (mirror_of(key.0), mirror_of(key.1));
    let both = (mirror_of(key.1), mirror_of(key.0));
    assert(leaf_value(key).is_probability());
    assert(leaf_value(swapped).ppm == 1_000_000 - leaf_value(key).ppm);
    assert(leaf_value(mirrored) == leaf_value(key));
    assert(leaf_value(both).ppm == 1_000_000 - leaf_value(mirrored).ppm);
}

/// The value of plain minimax is a probability.
pub proof fn lemma_minimax_is_probability(
    p: Position,
    own: Color,
    depth: nat,
    leaf_value: spec_fn((u64, u64)) -> Score,
)
    requires
        symmetric(leaf_value),
    ensures
        0 <= minimax(p, own, depth, leaf_value) <= 1_000_000,
    decreases depth, 1nat, 0nat,
{
    if settled(p, own) is None {
        if depth == 0 {
            assert(leaf_value(key_of(p)).is_probability());
        } else {
            lemma_useful_in_moves(p);
            lemma_best_among_is_probability(
                p,
                own,
                depth,
                leaf_value,
                useful_moves_of(p),
                useful_moves_of(p).len() as int,
            );
        }
    }
}

/// The best value among one move or more is a probability.
proof fn lemma_best_among_is_probability(
    p: Position,
    own: Color,
    depth: nat,
    leaf_value: spec_fn((u64, u64)) -> Score,
    moves: Seq<Column>,
    n: int,
)
    requires
        symmetric(leaf_value),
        depth > 0,
        0 < n <= moves.len(),
    ensures
        0 <= best_among(p, own, depth, leaf_value, moves, n) <= 1_000_000,
    decreases depth, 0nat, n,
{
    lemma_minimax_is_probability(p.play(moves[n - 1], true), own, (depth - 1) as nat, leaf_value);
    if n > 1 {
        lemma_best_among_is_probability(p, own, depth, leaf_value, moves, n - 1);
    } else {
        assert(best_among(p, own, depth, leaf_value, moves, 0) == if p.mover == own {
            -1_000_000
        } else {
            2_000_000int
        });
    }
}

/// The best value among the first `n` moves is as good as the value after
/// each of them, and it is the value after one of them.
proof fn lemma_best_among(
    p: Position,
    own: Color,
    depth: nat,
    leaf_value: spec_fn((u64, u64)) -> Score,
    moves: Seq<Column>,
    n: int,
)
    requires
        symmetric(leaf_value),
        depth > 0,
        0 <= n <= moves.len(),
    ensures
        forall|i: int|
            0 <= i < n ==> if p.mover == own {
                #[trigger] value_after(p, own, depth, leaf_value, moves[i]) <= best_among(
                    p,
                    own,
                    depth,
                    leaf_value,
                    moves,
                    n,
                )
            } else {
                value_after(p, own, depth, leaf_value, moves[i]) >= best_among(
                    p,
                    own,
                    depth,
                    leaf_value,
                    moves,
                    n,
                )
            },
        n > 0 ==> exists|i: int|
            0 <= i < n && #[trigger] value_after(p, own, depth, leaf_value, moves[i])
                == best_among(p, own, depth, leaf_value, moves, n),
    decreases n,
{
    if n > 0 {
        lemma_best_among(p, own, depth, leaf_value, moves, n - 1);
        let best = best_among(p, own, depth, leaf_value, moves, n);
        let value = value_after(p, own, depth, leaf_value, moves[n - 1]);
        lemma_minimax_is_probability(
            p.play(moves[n - 1], true),
            own,
            (depth - 1) as nat,
            leaf_value,
        );
        if value == best {
            assert(0 <= n - 1 < n && value_after(p, own, depth, leaf_value, moves[n - 1]) == best);
        } else {
            assert(best_among(p, own, depth, leaf_value, moves, 0) == if p.mover == own {
                -1_000_000
            } else {
                2_000_000int
            });
            assert(n > 1);
            let i = choose|i: int|
                0 <= i < n - 1 && #[trigger] value_after(p, own, depth, leaf_value, moves[i])
                    == best_among(p, own, depth, leaf_value, moves, n - 1);
            assert(0 <= i < n && value_after(p, own, depth, leaf_value, moves[i]) == best);
        }
    }
}

/// With more moves looked at, the best value only gets better for the player to move.
proof fn lemma_best_among_grows(
    p: Position,
    own: Color,
    depth: nat,
    leaf_value: spec_fn((u64, u64)) -> Score,
    moves: Seq<Column>,
    k: int,
    n: int,
)
    requires
        depth > 0,
        0 <= k <= n <= moves.len(),
    ensures
        p.mover == own ==> best_among(p, own, depth, leaf_value, moves, k) <= best_among(
            p,
            own,
            depth,
            leaf_value,
            moves,
            n,
        ),
        p.mover != own ==> best_among(p, own, depth, leaf_value, moves, k) >= best_among(
            p,
            own,
            depth,
            leaf_value,
            moves,
            n,
        ),
    decreases n - k,
{
    if k < n {
        lemma_best_among_grows(p, own, depth, leaf_value, moves, k, n - 1);
    }
}

/// Two lists of the same moves have the same best value.
proof fn lemma_same_moves_same_best(
    p: Position,
    own: Color,
    depth: nat,
    leaf_value: spec_fn((u64, u64)) -> Score,
    s: Seq<Column>,
    t: Seq<Column>,
)
    requires
        symmetric(leaf_value),
        depth > 0,
        forall|c: Column| s.contains(c) <==> t.contains(c),
    ensures
        best_among(p, own, depth, leaf_value, s, s.len() as int) == best_among(
            p,
            own,
            depth,
            leaf_value,
            t,
            t.len() as int,
        ),
{
    lemma_best_among(p, own, depth, leaf_value, s, s.len() as int);
    lemma_best_among(p, own, depth, leaf_value, t, t.len() as int);
    if s.len() > 0 {
        assert(s.contains(s[0]));
    }
    if t.len() > 0 {
        assert(t.contains(t[0]));
    }
    if s.len() > 0 && t.len() > 0 {
        let i = choose|i: int|
            0 <= i < s.len() && #[trigger] value_after(p, own, depth, leaf_value, s[i])
                == best_among(p, own, depth, leaf_value, s, s.len() as int);
        assert(s.contains(s[i]));
        let j = choose|j: int| 0 <= j < t.len() && t[j] == s[i];
        assert(value_after(p, own, depth, leaf_value, t[j]) == value_after(
            p,
            own,
            depth,
            leaf_value,
            s[i],
        ));
        let i2 = choose|i2: int|
            0 <= i2 < t.len() && #[trigger] value_after(p, own, depth, leaf_value, t[i2])
                == best_among(p, own, depth, leaf_value, t, t.len() as int);
        assert(t.contains(t[i2]));
        let j2 = choose|j2: int| 0 <= j2 < s.len() && s[j2] == t[i2];
        assert(value_after(p, own, depth, leaf_value, s[j2]) == value_after(
            p,
            own,
            depth,
            leaf_value,
            t[i2],
        ));
    }
}

/// Where the main variant begins with a move worth trying, the search tries
/// the moves worth trying and no others, that move first.
proof fn lemma_ordered_is_useful(p: Position, pv: Seq<Column>)
    requires
        pv.len() > 0 ==> useful_moves_of(p).contains(pv.last()),
    ensures
        forall|c: Column| ordered_moves(p, pv).contains(c) <==> useful_moves_of(p).contains(c),
        pv.len() > 0 ==> ordered_moves(p, pv).len() > 0 && ordered_moves(p, pv)[0] == pv.last(),
{
    let useful = useful_moves_of(p);
    let ordered = ordered_moves(p, pv);
    if pv.len() > 0 {
        let first = pv.last();
        let others = useful.filter(is_not(first));
        assert(ordered[0] == first);
        assert forall|c: Column| ordered.contains(c) implies useful.contains(c) by {
            let i = choose|i: int| 0 <= i < ordered.len() && ordered[i] == c;
            if i > 0 {
                assert(others[i - 1] == c);
                assert(others.contains(c));
                useful.lemma_filter_contains_rev(is_not(first), c);
            }
        }
        assert forall|c: Column| useful.contains(c) implies ordered.contains(c) by {
            if c == first {
                assert(ordered[0] == c);
            } else {
                let i = choose|i: int| 0 <= i < useful.len() && useful[i] == c;
                useful.lemma_filter_contains(is_not(first), i);
                let j = choose|j: int| 0 <= j < others.len() && others[j] == c;
                assert(ordered[j + 1] == c);
            }
        }
    }
}

/// What a search between two bounds finds, held against plain minimax, where
/// the leaves have fixed values that respect the symmetries of the cache and
/// the main variant is made of moves worth trying: the cache stays coherent,
/// the value found is a probability, and it stands to the minimax value as
/// `within` says. The line found is made of moves worth trying, and where the
/// value lies strictly between the bounds, the first move of the line is the
/// first of the moves tried that leads to a position of that value.
pub proof fn lemma_search_within(
    p: Position,
    own: Color,
    depth: nat,
    pv: Seq<Column>,
    alpha: Score,
    beta: Score,
    c0: Map<(u64, u64), Score>,
    leaf: spec_fn(Position, (Score, u64)) -> bool,
    leaf_value: spec_fn((u64, u64)) -> Score,
    out: Found,
    c1: Map<(u64, u64), Score>,
)
    requires
        search(p, own, depth, pv, alpha, beta, c0, leaf, out, c1),
        follows_useful(p, pv),
        -1_000_000 <= alpha.ppm < beta.ppm <= 2_000_000,
        coherent(c0, leaf_value),
        symmetric(leaf_value),
        valued_by(leaf, leaf_value),
    ensures
        coherent(c1, leaf_value),
        out.eval.is_probability(),
        within(alpha, beta, out.eval.ppm as int, minimax(p, own, depth, leaf_value)),
        follows_useful(p, out.variant),
        depth > 0 && settled(p, own) is None ==> out.variant.len() > 0 && (alpha.ppm
            < out.eval.ppm < beta.ppm ==> first_best(
            p,
            own,
            depth,
            leaf_value,
            ordered_moves(p, pv),
            out.variant.last(),
            out.eval.ppm as int,
        )),
    decreases depth, 1nat, 0nat,
{
    if settled(p, own) is Some {
    } else if depth == 0 {
        assert(leaf_value(key_of(p)).is_probability());
        if !c0.contains_key(key_of(p)) {
            assert(leaf(p, (out.eval, out.moves)));
            lemma_stored_coherent(c0, key_of(p), leaf_value);
        }
    } else {
        let moves = ordered_moves(p, pv);
        let (k, best) = choose|k: int, best: Best|
            #[trigger] ends_in(k, best) && 0 <= k <= moves.len() && reached(
                p,
                own,
                depth,
                pv,
                alpha,
                beta,
                c0,
                leaf,
                k,
                best,
                c1,
            ) && (k == moves.len() || best.cut) && out == best.found();
        lemma_reached_on_course(p, own, depth, pv, alpha, beta, c0, leaf, leaf_value, k, best, c1);
        lemma_best_among_grows(p, own, depth, leaf_value, moves, k, moves.len() as int);
        lemma_ordered_is_useful(p, pv);
        lemma_same_moves_same_best(p, own, depth, leaf_value, moves, useful_moves_of(p));
        lemma_useful_in_moves(p);
        if moves.len() == 0 {
            assert(useful_moves_of(p).len() > 0);
            assert(useful_moves_of(p).contains(useful_moves_of(p)[0]));
        }
    }
}

/// The state of a search after its first `k` moves is on course, and the
/// cache is coherent.
proof fn lemma_reached_on_course(
    p: Position,
    own: Color,
    depth: nat,
    pv: Seq<Column>,
    alpha: Score,
    beta: Score,
    c0: Map<(u64, u64), Score>,
    leaf: spec_fn(Position, (Score, u64)) -> bool,
    leaf_value: spec_fn((u64, u64)) -> Score,
    k: int,
    best: Best,
    c: Map<(u64, u64), Score>,
)
    requires
        depth > 0,
        reached(p, own, depth, pv, alpha, beta, c0, leaf, k, best, c),
        follows_useful(p, pv),
        -1_000_000 <= alpha.ppm < beta.ppm <= 2_000_000,
        coherent(c0, leaf_value),
        symmetric(leaf_value),
        valued_by(leaf, leaf_value),
    ensures
        coherent(c, leaf_value),
        on_course(p, own, depth, pv, alpha, beta, leaf_value, k, best),
    decreases depth, 0nat, k,
{
    let moves = ordered_moves(p, pv);
    if k > 0 {
        let (prev, pc, child) = choose|prev: Best, pc: Map<(u64, u64), Score>, child: Found|
            #[trigger] goes_by(prev, pc, child) && reached(
                p,
                own,
                depth,
                pv,
                alpha,
                beta,
                c0,
                leaf,
                k - 1,
                prev,
                pc,
            ) && !prev.cut && search(
                p.play(moves[k - 1], true),
                own,
                (depth - 1) as nat,
                variant_below(pv, k),
                prev.alpha,
                prev.beta,
                pc,
                leaf,
                child,
                c,
            ) && best == prev.absorb(p.mover == own, moves[k - 1], child);
        lemma_reached_on_course(
            p,
            own,
            depth,
            pv,
            alpha,
            beta,
            c0,
            leaf,
            leaf_value,
            k - 1,
            prev,
            pc,
        );
        lemma_ordered_is_useful(p, pv);
        assert(moves.contains(moves[k - 1]));
        lemma_search_within(
            p.play(moves[k - 1], true),
            own,
            (depth - 1) as nat,
            variant_below(pv, k),
            prev.alpha,
            prev.beta,
            pc,
            leaf,
            leaf_value,
            child,
            c,
        );
        lemma_absorb_on_course(p, own, depth, pv, alpha, beta, leaf_value, k, prev, child);
    }
}

/// One more move keeps the search on course, where what was found below the
/// move stands to the value after it as `within` says.
proof fn lemma_absorb_on_course(
    p: Position,
    own: Color,
    depth: nat,
    pv: Seq<Column>,
    alpha: Score,
    beta: Score,
    leaf_value: spec_fn((u64, u64)) -> Score,
    k: int,
    prev: Best,
    child: Found,
)
    requires
        symmetric(leaf_value),
        depth > 0,
        0 < k <= ordered_moves(p, pv).len(),
        -1_000_000 <= alpha.ppm < beta.ppm <= 2_000_000,
        on_course(p, own, depth, pv, alpha, beta, leaf_value, k - 1, prev),
        !prev.cut,
        useful_moves_of(p).contains(ordered_moves(p, pv)[k - 1]),
        child.eval.is_probability(),
        follows_useful(p.play(ordered_moves(p, pv)[k - 1], true), child.variant),
        within(
            prev.alpha,
            prev.beta,
            child.eval.ppm as int,
            value_after(p, own, depth, leaf_value, ordered_moves(p, pv)[k - 1]),
        ),
    ensures
        on_course(
            p,
            own,
            depth,
            pv,
            alpha,
            beta,
            leaf_value,
            k,
            prev.absorb(p.mover == own, ordered_moves(p, pv)[k - 1], child),
        ),
{
    let moves = ordered_moves(p, pv);
    let column = moves[k - 1];
    let longer = child.variant.push(column);
    let maximize = p.mover == own;
    let best = prev.absorb(maximize, column, child);
    let found = best.eval.ppm as int;
    assert(longer.last() == column);
    assert(longer.drop_last() =~= child.variant);
    lemma_best_among(p, own, depth, leaf_value, moves, k - 1);
    if worse(maximize, prev.eval.ppm as int, child.eval.ppm as int) && alpha.ppm < found
        < beta.ppm {
        assert(value_after(p, own, depth, leaf_value, moves[k - 1]) == found);
        assert forall|j: int| 0 <= j < k - 1 implies worse(
            maximize,
            #[trigger] value_after(p, own, depth, leaf_value, moves[j]),
            found,
        ) by {}
        assert(first_best(p, own, depth, leaf_value, moves, longer.last(), found));
    }
}

/// The search from -1 to 2 finds the value of plain minimax, and the first
/// move of the line that it finds is the first of the moves tried that leads
/// to a position of that value: where the leaves have fixed values that
/// respect the symmetries of the cache, the cache holds nothing else, and the
/// main variant is made of moves worth trying.
pub proof fn alpha_beta_is_minimax(
    p: Position,
    own: Color,
    depth: nat,
    pv: Seq<Column>,
    c0: Map<(u64, u64), Score>,
    leaf: spec_fn(Position, (Score, u64)) -> bool,
    leaf_value: spec_fn((u64, u64)) -> Score,
    out: Found,
    c1: Map<(u64, u64), Score>,
)
    requires
        search(
            p,
            own,
            depth,
            pv,
            Score { ppm: -1_000_000i64 },
            Score { ppm: 2_000_000 },
            c0,
            leaf,
            out,
            c1,
        ),
        follows_useful(p, pv),
        coherent(c0, leaf_value),
        symmetric(leaf_value),
        valued_by(leaf, leaf_value),
    ensures
        out.eval.ppm == minimax(p, own, depth, leaf_value),
        depth > 0 && settled(p, own) is None ==> out.variant.len() > 0 && first_best(
            p,
            own,
            depth,
            leaf_value,
            ordered_moves(p, pv),
            out.variant.last(),
            minimax(p, own, depth, leaf_value),
        ),
        follows_useful(p, out.variant),
        coherent(c1, leaf_value),
{
    lemma_search_within(
        p,
        own,
        depth,
        pv,
        Score { ppm: -1_000_000i64 },
        Score { ppm: 2_000_000 },
        c0,
        leaf,
        leaf_value,
        out,
        c1,
    );
}

/// Searching deeper and deeper, each time with the line found before as the
/// main variant, ends with the value of plain minimax at the last depth and
/// with a first move that leads to a position of that value, under the same
/// conditions on the leaves and the cache.
pub proof fn deepening_is_minimax(
    p: Position,
    own: Color,
    depth: nat,
    c0: Map<(u64, u64), Score>,
    leaf: spec_fn(Position, (Score, u64)) -> bool,
    leaf_value: spec_fn((u64, u64)) -> Score,
    out: Found,
    c1: Map<(u64, u64), Score>,
)
    requires
        deepened(p, own, depth, c0, leaf, out, c1),
        coherent(c0, leaf_value),
        symmetric(leaf_value),
        valued_by(leaf, leaf_value),
    ensures
        depth > 0 ==> out.eval.ppm == minimax(p, own, depth, leaf_value),
        depth > 0 && settled(p, own) is None ==> out.variant.len() > 0 && value_after(
            p,
            own,
            depth,
            leaf_value,
            out.variant.last(),
        ) == minimax(p, own, depth, leaf_value),
        follows_useful(p, out.variant),
        coherent(c1, leaf_value),
    decreases depth,
{
    if depth > 0 {
        let (prev, pc, last) = choose|prev: Found, pc: Map<(u64, u64), Score>, last: Found|
            #[trigger] deepens_by(prev, pc, last) && deepened(
                p,
                own,
                (depth - 1) as nat,
                c0,
                leaf,
                prev,
                pc,
            ) && prev.variant.len() >= depth - 1 && search(
                p,
                own,
                depth,
                prev.variant,
                Score { ppm: -1_000_000i64 },
                Score { ppm: 2_000_000 },
                pc,
                leaf,
                last,
                c1,
            ) && out == (Found {
                variant: last.variant,
                eval: last.eval,
                moves: crate::minmax::capped_sum(prev.moves, last.moves),
                positions: crate::minmax::capped_sum(prev.positions, last.positions),
            });
        deepening_is_minimax(p, own, (depth - 1) as nat, c0, leaf, leaf_value, prev, pc);
        alpha_beta_is_minimax(p, own, depth, prev.variant, pc, leaf, leaf_value, last, c1);
    }
}

} // verus!
