//! The moves worth trying, and the valuation of a position by random playouts.

use vstd::prelude::*;
use rand::{thread_rng, Rng, ThreadRng};
use crate::{Color, Column};
use crate::board::{lemma_drop_winner, Board, Position};
use crate::score::{share, Score};
use crate::time::Timer;

verus! {

/// Whether a stone of `color` in `column` leaves the position with a winner.
pub open spec fn decides(p: Position, color: Color, column: Column) -> bool {
    p.drop_as(color, column).winner is Some
}

/// The place in the list of moves, from `i` on, of the first move with which
/// `color` decides the game; the length of the list if there is none.
pub open spec fn first_deciding(p: Position, color: Color, i: int) -> int
    decreases p.moves.len() - i,
{
    if i < 0 || i >= p.moves.len() {
        p.moves.len() as int
    } else if decides(p, color, p.moves[i]) {
        i
    } else {
        first_deciding(p, color, i + 1)
    }
}

/// The moves worth trying: the first listed move that wins at once, alone; if
/// there is none, the first listed move with which the opponent would win at
/// once, alone; if there is none either, all the listed moves.
pub open spec fn useful_moves_of(p: Position) -> Seq<Column> {
    let own = first_deciding(p, p.mover, 0);
    let other = first_deciding(p, p.mover.other(), 0);
    if own < p.moves.len() {
        seq![p.moves[own]]
    } else if other < p.moves.len() {
        seq![p.moves[other]]
    } else {
        p.moves
    }
}

/// How many stones lie on a grid with these column heights.
pub open spec fn filled(heights: Seq<Column>) -> int {
    heights[0] + heights[1] + heights[2] + heights[3] + heights[4] + heights[5] + heights[6]
}

/// Whether `protocol` can be the record of a random game from `p`: every move
/// is one of the moves worth trying where it is made, and the game has no
/// winner between the first move and the last.
pub open spec fn is_playout(p: Position, protocol: Seq<Column>) -> bool {
    forall|k: int|
        0 <= k < protocol.len() ==> useful_moves_of(
            #[trigger] p.play_all(protocol.take(k)),
        ).contains(protocol[k]) && (0 < k ==> p.play_all(protocol.take(k)).winner is None)
}

/// Whether the player to move wins at once: nobody has won, and a listed move
/// completes a line.
pub open spec fn wins_at_once(p: Position) -> bool {
    p.winner is None && first_deciding(p, p.mover, 0) < p.moves.len()
}

/// The move with which the player to move wins at once.
pub open spec fn winning_move(p: Position) -> Column {
    p.moves[first_deciding(p, p.mover, 0)]
}

/// The result of the random game `game` from `p`: the winner after its last
/// move, and nobody where no move was made.
pub open spec fn result_of(p: Position, game: Seq<Column>) -> Option<Color> {
    if game.len() == 0 {
        None
    } else {
        p.play_all(game).winner
    }
}

/// Whether `game` is the record of a whole random game from `p`: every move is
/// one of the moves worth trying where it is made, nobody has won between the
/// first move and the last, the game ends with a stone that decides it or
/// with no move left, and it has no more moves than the grid had free cells.
pub open spec fn is_game(p: Position, game: Seq<Column>) -> bool {
    &&& is_playout(p, game)
    &&& (game.len() > 0 && p.play_all(game).winner is Some) || p.play_all(game).moves.len() == 0
    &&& game.len() <= 42 - filled(p.heights)
}

/// How many of the first `n` games `own` has won.
pub open spec fn wins_in(p: Position, own: Color, games: Seq<Seq<Column>>, n: int) -> int
    decreases n,
{
    if n <= 0 {
        0
    } else {
        wins_in(p, own, games, n - 1) + if result_of(p, games[n - 1]) == Some(own) {
            1int
        } else {
            0int
        }
    }
}

/// How many moves were made in the first `n` games.
pub open spec fn moves_in(games: Seq<Seq<Column>>, n: int) -> int
    decreases n,
{
    if n <= 0 {
        0
    } else {
        moves_in(games, n - 1) + games[n - 1].len()
    }
}

/// Whether every one of `games` is the record of a whole random game from `p`.
pub open spec fn all_games(p: Position, games: Seq<Seq<Column>>) -> bool {
    forall|i: int| 0 <= i < games.len() ==> is_game(p, #[trigger] games[i])
}

/// The tallies after one more game: a game more, a win more if `own_color` is
/// the one that `result` names, and the moves of the game more.
pub fn tally(
    own_color: Color,
    result: Option<Color>,
    plies: usize,
    wins: u32,
    games: u32,
    moves: u64,
) -> (r: (u32, u32, u64))
    requires
        wins < u32::MAX,
        games < u32::MAX,
        moves + plies <= u64::MAX,
    ensures
        r.0 == wins + if result == Some(own_color) {
            1int
        } else {
            0int
        },
        r.1 == games + 1,
        r.2 == moves + plies,
{
    let won = match result {
        Some(color) => color == own_color,
        None => false,
    };
    (
        if won {
            wins + 1
        } else {
            wins
        },
        games + 1,
        moves + plies as u64,
    )
}

/// Whether another game may begin: always where there is no limit, and else
/// while fewer milliseconds have passed than the limit allows.
pub fn in_time(elapsed_millis: u64, limit: Option<u64>) -> (r: bool)
    ensures
        r == match limit {
            Some(millis) => elapsed_millis < millis,
            None => true,
        },
{
    match limit {
        Some(millis) => elapsed_millis < millis,
        None => true,
    }
}

/// `rand::ThreadRng`, the random number generator of a thread. Nothing is
/// known of what it holds.
#[verifier::external_type_specification]
#[verifier::external_body]
pub struct ExThreadRng(ThreadRng);

/// `rand::thread_rng`: the random number generator of this thread. Nothing is
/// claimed of it. It stops the program where the system has no entropy to
/// start the generator with.
#[verifier::external_body]
fn generator() -> ThreadRng {
    thread_rng()
}

/// `rand::Rng::choose`: nothing where `moves` is empty, else one of the
/// entries of `moves`. Which entry comes is left open. The generator fetches
/// new entropy from time to time and stops the program where the system has
/// none.
#[verifier::external_body]
fn pick(rng: &mut ThreadRng, moves: &Vec<Column>) -> (r: Option<Column>)
    ensures
        moves@.len() == 0 ==> r is None,
        moves@.len() > 0 ==> r is Some && moves@.contains(r.unwrap()),
{
    rng.choose(moves).copied()
}

/// The first listed move with which `color` decides the game, if there is one.
fn find_deciding(board: &Board, color: Color) -> (r: Option<Column>)
    requires
        board.playable(),
    ensures
        match r {
            Some(column) => first_deciding(board@, color, 0) < board@.moves.len() && column
                == board@.moves[first_deciding(board@, color, 0)],
            None => first_deciding(board@, color, 0) == board@.moves.len(),
        },
{
    let moves = board.moves.moves();
    let mut i: usize = 0;
    while i < moves.len()
        invariant
            board.playable(),
            moves@ == board@.moves,
            i <= moves@.len(),
            first_deciding(board@, color, 0) == first_deciding(board@, color, i as int),
        decreases moves@.len() - i,
    {
        let column = moves[i];
        let mut sim = *board;
        sim.color_to_move = color;
        sim.play_move(column, false);
        if sim.winner.is_some() {
            return Some(column);
        }
        i += 1;
    }
    None
}

/// The moves worth trying: the move that wins at once, or else the move that
/// keeps the opponent from winning at once, or else every listed move. Each
/// listed move is tried on a copy of the board, at most fourteen stones in all.
pub fn useful_moves(board: &Board) -> (r: Vec<Column>)
    requires
        board.playable(),
    ensures
        r@ == useful_moves_of(board@),
{
    // a move with which the player to move wins
    match find_deciding(board, board.color_to_move) {
        Some(column) => {
            let r = vec![column];
            assert(r@ =~= useful_moves_of(board@));
            return r;
        },
        None => {},
    }
    // a move with which the opponent would win
    match find_deciding(board, board.color_to_move.switch()) {
        Some(column) => {
            let r = vec![column];
            assert(r@ =~= useful_moves_of(board@));
            return r;
        },
        None => {},
    }
    board.moves.moves()
}

/// Plays the game on from `board` with moves picked at random among the moves
/// worth trying, until a stone decides it or no move is left, and gives back
/// the moves that were made and the winner that the last stone made.
pub fn play_random_game(board: &mut Board) -> (r: (Vec<Column>, Option<Color>))
    requires
        old(board).wf(),
    ensures
        final(board).wf(),
        final(board)@ == old(board)@.play_all(r.0@),
        is_playout(old(board)@, r.0@),
        r.0@.len() == filled(final(board)@.heights) - filled(old(board)@.heights),
        r.0@.len() <= 42,
        r.0@.len() == 0 <==> old(board)@.moves.len() == 0,
        match r.1 {
            Some(color) => r.0@.len() > 0 && final(board).winner == Some(color),
            None => final(board)@.moves.len() == 0,
        },
        wins_at_once(old(board)@) ==> r.0@ == seq![winning_move(old(board)@)] && r.1 == Some(
            old(board)@.mover,
        ),
        r.1 == result_of(old(board)@, r.0@),
        is_game(old(board)@, r.0@),
{
    let mut protocol: Vec<Column> = Vec::new();
    let mut rng = generator();
    proof {
        assert(old(board)@.play_all(protocol@) == old(board)@);
    }
    loop
        invariant
            board.wf(),
            board@ == old(board)@.play_all(protocol@),
            is_playout(old(board)@, protocol@),
            protocol@.len() == filled(board@.heights) - filled(old(board)@.heights),
            protocol@.len() > 0 ==> board.winner is None && old(board)@.moves.len() > 0,
            wins_at_once(old(board)@) ==> protocol@.len() == 0,
            old(board)@.heights.len() == 7,
            filled(old(board)@.heights) >= 0,
        decreases 42 - filled(board@.heights),
    {
        proof {
            board.lemma_wf_playable();
        }
        let moves = useful_moves(board);
        proof {
            lemma_useful_in_moves(board@);
        }
        match pick(&mut rng, &moves) {
            None => {
                return (protocol, None);
            },
            Some(column) => {
                proof {
                    let before = protocol@;
                    let after = protocol@.push(column);
                    lemma_play_all_push(old(board)@, before, column);
                    assert(after.take(before.len() as int) =~= before);
                    assert forall|k: int| 0 <= k < after.len() implies useful_moves_of(
                        #[trigger] old(board)@.play_all(after.take(k)),
                    ).contains(after[k]) && (0 < k ==> old(board)@.play_all(
                        after.take(k),
                    ).winner is None) by {
                        if k < before.len() {
                            assert(after.take(k) =~= before.take(k));
                        }
                    }
                }
                proof {
                    if protocol@.len() == 0 && wins_at_once(board@) {
                        lemma_first_deciding(board@, board@.mover, 0);
                        lemma_drop_winner(board@, board@.mover, column);
                        assert(moves@ =~= seq![winning_move(board@)]);
                        assert(column == winning_move(board@));
                        assert(decides(board@, board@.mover, column));
                        assert(protocol@.push(column) =~= seq![winning_move(board@)]);
                    }
                }
                protocol.push(column);
                board.play_move(column, true);
                if board.winner.is_some() {
                    return (protocol, board.winner);
                }
            },
        }
    }
}

/// The tallies of the first `n` games do not change when a game is added at the end.
proof fn lemma_tallies_push(
    p: Position,
    own: Color,
    games: Seq<Seq<Column>>,
    game: Seq<Column>,
    n: int,
)
    requires
        0 <= n <= games.len(),
    ensures
        wins_in(p, own, games.push(game), n) == wins_in(p, own, games, n),
        moves_in(games.push(game), n) == moves_in(games, n),
    decreases n,
{
    if n > 0 {
        lemma_tallies_push(p, own, games, game, n - 1);
    }
}

/// Plays random games from `board`, `num_games` of them or as many as begin
/// before the clock reads `millis` milliseconds, and counts the games that
/// `own_color` won, the games played and the moves made in them.
fn simulate(board: &Board, own_color: Color, num_games: u32, millis: Option<u64>) -> (r: (
    u32,
    u32,
    u64,
))
    requires
        board.wf(),
    ensures
        r.0 <= r.1 <= num_games,
        exists|games: Seq<Seq<Column>>| #[trigger]
            all_games(board@, games) && games.len() == r.1 && r.0 == wins_in(
                board@,
                own_color,
                games,
                games.len() as int,
            ) && r.2 == moves_in(games, games.len() as int),
        r.2 <= (42 - filled(board@.heights)) * r.1,
        r.2 <= 42 * r.1,
        millis is None ==> r.1 == num_games,
        millis == Some(0u64) ==> r.1 == 0,
        board@.moves.len() == 0 ==> r.0 == 0 && r.2 == 0,
        board@.moves.len() > 0 ==> r.2 >= r.1,
        wins_at_once(board@) ==> r.2 == r.1 && r.0 == if own_color == board@.mover {
            r.1
        } else {
            0
        },
{
    let mut wins: u32 = 0;
    let mut moves: u64 = 0;
    let mut total: u32 = 0;
    let ghost mut record: Seq<Seq<Column>> = Seq::empty();
    let timer = Timer::new();
    let mut go = in_time(timer.elapsed_millis(), millis);

    while total < num_games && go
        invariant
            board.wf(),
            wins <= total <= num_games,
            record.len() == total,
            all_games(board@, record),
            wins == wins_in(board@, own_color, record, total as int),
            moves == moves_in(record, total as int),
            moves <= (42 - filled(board@.heights)) * total,
            moves <= 42 * total,
            millis is None ==> go,
            millis == Some(0u64) ==> !go && total == 0,
            board@.moves.len() == 0 ==> wins == 0 && moves == 0,
            board@.moves.len() > 0 ==> moves >= total,
            wins_at_once(board@) ==> moves == total && wins == if own_color == board@.mover {
                total
            } else {
                0
            },
        decreases num_games - total,
    {
        let mut sim = *board;
        let (variant, result) = play_random_game(&mut sim);
        proof {
            let longer = record.push(variant@);
            lemma_tallies_push(board@, own_color, record, variant@, total as int);
            assert forall|i: int| 0 <= i < longer.len() implies is_game(
                board@,
                #[trigger] longer[i],
            ) by {
                if i < record.len() {
                    assert(longer[i] == record[i]);
                }
            }
            let room = 42 - filled(board@.heights);
            assert(moves + variant@.len() <= room * (total + 1)) by (nonlinear_arith)
                requires
                    moves <= room * total,
                    variant@.len() <= room,
            ;
            record = longer;
        }
        let (new_wins, new_total, new_moves) = tally(
            own_color,
            result,
            variant.len(),
            wins,
            total,
            moves,
        );
        wins = new_wins;
        total = new_total;
        moves = new_moves;
        go = in_time(timer.elapsed_millis(), millis);
    }
    proof {
        assert(all_games(board@, record));
    }

    (wins, total, moves)
}

/// The share of `num_games` random games that `own_color` wins, with the
/// moves made in all of them. A draw is no win. Without a game the share is
/// a half.
pub fn evaluate(board: &Board, own_color: Color, num_games: u32) -> (r: (Score, u64))
    requires
        board.wf(),
    ensures
        exists|games: Seq<Seq<Column>>| #[trigger]
            all_games(board@, games) && games.len() == num_games && r.0.ppm == share(
                wins_in(board@, own_color, games, games.len() as int),
                num_games as int,
            ) && r.1 == moves_in(games, games.len() as int),
        r.0.is_probability(),
        r.1 <= (42 - filled(board@.heights)) * num_games,
        board@.moves.len() == 0 ==> r.0.ppm == share(0, num_games as int) && r.1 == 0,
        board@.moves.len() > 0 ==> r.1 >= num_games,
        wins_at_once(board@) ==> r.1 == num_games && r.0.ppm == share(
            if own_color == board@.mover {
                num_games as int
            } else {
                0
            },
            num_games as int,
        ),
{
    let (wins, total, moves) = simulate(board, own_color, num_games, None);
    (Score::of_games(wins, total), moves)
}

/// The share of the random games that `own_color` wins among those that begin
/// before the clock reads `millis` milliseconds, at most `num_games` of them,
/// with the moves made in all of them. The clock is read before every game,
/// and `in_time` says whether the game begins. A draw is no win. Without a
/// game the share is a half.
pub fn evaluate_within(board: &Board, own_color: Color, num_games: u32, millis: u64) -> (r: (
    Score,
    u64,
))
    requires
        board.wf(),
    ensures
        exists|games: Seq<Seq<Column>>| #[trigger]
            all_games(board@, games) && games.len() <= num_games && (millis == 0 ==> games.len()
                == 0) && r.0.ppm == share(
                wins_in(board@, own_color, games, games.len() as int),
                games.len() as int,
            ) && r.1 == moves_in(games, games.len() as int),
        r.0.is_probability(),
        r.1 <= (42 - filled(board@.heights)) * num_games,
        millis == 0 ==> r.0.ppm == 500_000 && r.1 == 0,
        board@.moves.len() == 0 ==> r.1 == 0,
{
    let (wins, total, moves) = simulate(board, own_color, num_games, Some(millis));
    proof {
        let room = 42 - filled(board@.heights);
        assert(room * total <= room * num_games) by (nonlinear_arith)
            requires
                0 <= room,
                total <= num_games,
        ;
    }
    (Score::of_games(wins, total), moves)
}

/// How many workers share the games of one valuation.
pub const NUM_THREADS: usize = 4;

/// The games that each worker plays when `num_games` are shared out evenly.
pub fn games_per_worker(num_games: u32) -> (r: u32)
    ensures
        r == num_games / 4,
{
    num_games / NUM_THREADS as u32
}

/// The sum of the first `n` counts of moves, at most `u64::MAX`.
pub open spec fn moves_total(results: Seq<(Score, u64)>, n: int) -> int
    decreases n,
{
    if n <= 0 {
        0
    } else if moves_total(results, n - 1) + results[n - 1].1 > u64::MAX {
        u64::MAX as int
    } else {
        moves_total(results, n - 1) + results[n - 1].1
    }
}

/// The scores of the first `n` results, summed in millionths.
pub open spec fn score_total(results: Seq<(Score, u64)>, n: int) -> int
    decreases n,
{
    if n <= 0 {
        0
    } else {
        score_total(results, n - 1) + results[n - 1].0.ppm
    }
}

/// What the workers found, brought together: the mean of their scores,
/// rounded down to a millionth, and the sum of their counts of moves.
pub fn combine(results: &Vec<(Score, u64)>) -> (r: (Score, u64))
    requires
        results@.len() > 0,
        forall|i: int| 0 <= i < results@.len() ==> (#[trigger] results@[i]).0.is_probability(),
    ensures
        r.0.ppm == score_total(results@, results@.len() as int) / (results@.len() as int),
        r.0.is_probability(),
        r.1 == moves_total(results@, results@.len() as int),
{
    let mut sum_eval: u128 = 0;
    let mut sum_games: u64 = 0;
    let mut i: usize = 0;
    while i < results.len()
        invariant
            i <= results@.len(),
            forall|j: int| 0 <= j < results@.len() ==> (#[trigger] results@[j]).0.is_probability(),
            sum_eval == score_total(results@, i as int),
            sum_eval <= 1_000_000 * i,
            sum_games == moves_total(results@, i as int),
        decreases results@.len() - i,
    {
        let (eval, games) = results[i];
        sum_eval += eval.ppm as u128;
        sum_games = sum_games.saturating_add(games);
        i += 1;
    }
    let mean: u128 = sum_eval / results.len() as u128;
    proof {
        let n = results@.len() as int;
        vstd::arithmetic::div_mod::lemma_fundamental_div_mod(sum_eval as int, n);
        assert(mean <= 1_000_000) by (nonlinear_arith)
            requires
                n * mean <= sum_eval,
                sum_eval <= 1_000_000 * n,
                n > 0,
        ;
    }
    (Score { ppm: mean as i64 }, sum_games)
}

/// Playing `columns` and then `column` is playing `columns` with `column` at its end.
pub proof fn lemma_play_all_push(p: Position, columns: Seq<Column>, column: Column)
    ensures
        p.play_all(columns.push(column)) == p.play_all(columns).play(column, true),
    decreases columns.len(),
{
    let longer = columns.push(column);
    if columns.len() == 0 {
        assert(longer.skip(1) =~= columns);
        assert(p.play(column, true).play_all(longer.skip(1)) == p.play(column, true));
    } else {
        assert(longer.skip(1) =~= columns.skip(1).push(column));
        lemma_play_all_push(p.play(columns[0], true), columns.skip(1), column);
    }
}

/// Every move worth trying is one of the listed moves, and there is one
/// whenever a move is listed.
pub proof fn lemma_useful_in_moves(p: Position)
    ensures
        forall|c: Column| useful_moves_of(p).contains(c) ==> p.moves.contains(c),
        useful_moves_of(p).len() == 0 <==> p.moves.len() == 0,
{
    lemma_first_deciding(p, p.mover, 0);
    lemma_first_deciding(p, p.mover.other(), 0);
    assert forall|c: Column| useful_moves_of(p).contains(c) implies p.moves.contains(c) by {
        let i = choose|i: int| 0 <= i < useful_moves_of(p).len() && useful_moves_of(p)[i] == c;
        let own = first_deciding(p, p.mover, 0);
        let other = first_deciding(p, p.mover.other(), 0);
        if own < p.moves.len() {
            assert(p.moves[own] == c);
        } else if other < p.moves.len() {
            assert(p.moves[other] == c);
        }
    }
}

/// What the moves worth trying are, case by case: a move that wins at once
/// comes alone, and it is the first such move of the list; failing that, a
/// move that stops the opponent from winning at once comes alone, the first of
/// the list again; failing both, the whole list comes back.
pub proof fn useful_moves_cases(p: Position)
    ensures
        (exists|i: int| 0 <= i < p.moves.len() && decides(p, p.mover, p.moves[i]))
            ==> useful_moves_of(p).len() == 1 && exists|i: int|
            0 <= i < p.moves.len() && useful_moves_of(p)[0] == p.moves[i] && decides(
                p,
                p.mover,
                p.moves[i],
            ) && forall|j: int| 0 <= j < i ==> !decides(p, p.mover, p.moves[j]),
        !(exists|i: int| 0 <= i < p.moves.len() && decides(p, p.mover, p.moves[i])) && (exists|
            i: int,
        |
            0 <= i < p.moves.len() && decides(p, p.mover.other(), p.moves[i]))
            ==> useful_moves_of(p).len() == 1 && exists|i: int|
            0 <= i < p.moves.len() && useful_moves_of(p)[0] == p.moves[i] && decides(
                p,
                p.mover.other(),
                p.moves[i],
            ) && forall|j: int| 0 <= j < i ==> !decides(p, p.mover.other(), p.moves[j]),
        !(exists|i: int| 0 <= i < p.moves.len() && decides(p, p.mover, p.moves[i])) && !(exists|
            i: int,
        |
            0 <= i < p.moves.len() && decides(p, p.mover.other(), p.moves[i]))
            ==> useful_moves_of(p) == p.moves,
{
    lemma_first_deciding(p, p.mover, 0);
    lemma_first_deciding(p, p.mover.other(), 0);
}

/// The first deciding move from `i` on is one, and no move between `i` and it is.
pub proof fn lemma_first_deciding(p: Position, color: Color, i: int)
    requires
        0 <= i <= p.moves.len(),
    ensures
        i <= first_deciding(p, color, i) <= p.moves.len(),
        first_deciding(p, color, i) < p.moves.len() ==> decides(
            p,
            color,
            p.moves[first_deciding(p, color, i)],
        ),
        forall|j: int| i <= j < first_deciding(p, color, i) ==> !decides(p, color, p.moves[j]),
    decreases p.moves.len() - i,
{
    if i < p.moves.len() && !decides(p, color, p.moves[i]) {
        lemma_first_deciding(p, color, i + 1);
    }
}

} // verus!
