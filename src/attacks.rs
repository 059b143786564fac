use vstd::prelude::*;

use crate::bitboard::BitBoard;
use crate::coord::{file_of, rank_of, square_of, Coord};

verus! {

/// Whether `i` is a square index.
pub open spec fn on_board(i: int) -> bool {
    0 <= i < 64
}

/// The absolute value of `a`.
pub open spec fn abs(a: int) -> int {
    if a < 0 {
        -a
    } else {
        a
    }
}

/// The file step from `from` to `to`.
pub open spec fn dfile(from: int, to: int) -> int {
    file_of(to) - file_of(from)
}

/// The rank step from `from` to `to`.
pub open spec fn drank(from: int, to: int) -> int {
    rank_of(to) - rank_of(from)
}

/// A knight on `from` reaches `to`: two squares along one axis and one along the other.
pub open spec fn knight_target(from: int, to: int) -> bool {
    on_board(from) && on_board(to) && ((abs(dfile(from, to)) == 1 && abs(drank(from, to)) == 2)
        || (abs(dfile(from, to)) == 2 && abs(drank(from, to)) == 1))
}

/// A king on `from` reaches `to`: one of the eight neighbouring squares.
pub open spec fn king_target(from: int, to: int) -> bool {
    on_board(from) && on_board(to) && abs(dfile(from, to)) <= 1 && abs(drank(from, to)) <= 1
        && from != to
}

/// The rank step of a pawn of `color`: up for white, down for black.
pub open spec fn forward(color: bool) -> int {
    if color {
        1
    } else {
        -1
    }
}

/// The rank from which a pawn of `color` may advance two squares.
pub open spec fn pawn_start_rank(color: bool) -> int {
    if color {
        1
    } else {
        6
    }
}

/// A pawn of `color` on `from` may advance to `to` on an empty board: one
/// square forward, or two from its starting rank.
pub open spec fn pawn_push_target(color: bool, from: int, to: int) -> bool {
    on_board(from) && on_board(to) && dfile(from, to) == 0 && (drank(from, to) == forward(color)
        || (drank(from, to) == 2 * forward(color) && rank_of(from) == pawn_start_rank(color)))
}

/// A pawn of `color` on `from` attacks `to`: one square diagonally forward.
pub open spec fn pawn_attack_target(color: bool, from: int, to: int) -> bool {
    on_board(from) && on_board(to) && abs(dfile(from, to)) == 1 && drank(from, to) == forward(
        color,
    )
}

/// The squares reached from `(x, y)` stepping by `(dx, dy)`, for at most
/// `fuel` steps: each step adds its square, and the walk stops at the edge of
/// the board or after the first square held in `blockers`.
pub open spec fn ray(x: int, y: int, dx: int, dy: int, blockers: Set<int>, fuel: nat) -> Set<
    int,
>
    decreases fuel,
{
    if fuel == 0 || !(0 <= x + dx < 8 && 0 <= y + dy < 8) {
        Set::empty()
    } else if blockers.contains(square_of(x + dx, y + dy)) {
        set![square_of(x + dx, y + dy)]
    } else {
        ray(x + dx, y + dy, dx, dy, blockers, (fuel - 1) as nat).insert(square_of(x + dx, y + dy))
    }
}

/// The squares that a bishop on `sq` reaches along its four diagonals.
pub open spec fn bishop_reach(sq: int, blockers: Set<int>) -> Set<int> {
    let x = file_of(sq);
    let y = rank_of(sq);
    ray(x, y, 1, 1, blockers, 7).union(ray(x, y, -1, 1, blockers, 7)).union(
        ray(x, y, 1, -1, blockers, 7),
    ).union(ray(x, y, -1, -1, blockers, 7))
}

/// The squares that a rook on `sq` reaches along its rank and file.
pub open spec fn rook_reach(sq: int, blockers: Set<int>) -> Set<int> {
    let x = file_of(sq);
    let y = rank_of(sq);
    ray(x, y, 1, 0, blockers, 7).union(ray(x, y, -1, 0, blockers, 7)).union(
        ray(x, y, 0, 1, blockers, 7),
    ).union(ray(x, y, 0, -1, blockers, 7))
}

/// Adds the square `(x + dx, y + dy)` where it lies on the board.
fn add_offset(moves: &mut BitBoard, x: u8, y: u8, dx: i8, dy: i8)
    requires
        x < 8,
        y < 8,
        -2 <= dx <= 2,
        -2 <= dy <= 2,
    ensures
        0 <= x + dx < 8 && 0 <= y + dy < 8 ==> final(moves)@ == old(moves)@.insert(
            square_of(x + dx, y + dy),
        ),
        !(0 <= x + dx < 8 && 0 <= y + dy < 8) ==> final(moves)@ == old(moves)@,
{
    let nx: i8 = x as i8 + dx;
    let ny: i8 = y as i8 + dy;
    if 0 <= nx && nx < 8 && 0 <= ny && ny < 8 {
        moves.set_index((nx as u8) + 8 * (ny as u8));
    }
}

pub proof fn lemma_square_parts(t: int)
    requires
        on_board(t),
    ensures
        t == square_of(file_of(t), rank_of(t)),
        0 <= file_of(t) < 8,
        0 <= rank_of(t) < 8,
{
}

pub proof fn lemma_parts_of_square(x: int, y: int)
    requires
        0 <= x < 8,
        0 <= y < 8,
    ensures
        file_of(square_of(x, y)) == x,
        rank_of(square_of(x, y)) == y,
        on_board(square_of(x, y)),
{
}

/// The squares that a knight on `coord` reaches on an empty board.
pub fn all_knight_moves(coord: Coord) -> (r: BitBoard)
    requires
        coord.wf(),
    ensures
        r@ == Set::new(|t: int| knight_target(coord.idx(), t)),
{
    let mut moves = BitBoard::new();
    let x = coord.x;
    let y = coord.y;
    add_offset(&mut moves, x, y, 1, 2);
    add_offset(&mut moves, x, y, -1, 2);
    add_offset(&mut moves, x, y, 1, -2);
    add_offset(&mut moves, x, y, -1, -2);
    add_offset(&mut moves, x, y, 2, 1);
    add_offset(&mut moves, x, y, -2, 1);
    add_offset(&mut moves, x, y, 2, -1);
    add_offset(&mut moves, x, y, -2, -1);
    proof {
        let f = coord.idx();
        lemma_parts_of_square(x as int, y as int);
        assert forall|t: int| moves@.contains(t) == knight_target(f, t) by {
            if on_board(t) {
                lemma_square_parts(t);
            }
            if moves@.contains(t) {
                assert(on_board(t));
            }
        }
        assert(moves@ =~= Set::new(|t: int| knight_target(f, t)));
    }
    moves
}

/// The squares that a king on `coord` reaches on an empty board.
pub fn all_king_moves(coord: Coord) -> (r: BitBoard)
    requires
        coord.wf(),
    ensures
        r@ == Set::new(|t: int| king_target(coord.idx(), t)),
{
    let mut moves = BitBoard::new();
    let x = coord.x;
    let y = coord.y;
    add_offset(&mut moves, x, y, 0, 1);
    add_offset(&mut moves, x, y, 1, 1);
    add_offset(&mut moves, x, y, -1, 1);
    add_offset(&mut moves, x, y, 0, -1);
    add_offset(&mut moves, x, y, 1, -1);
    add_offset(&mut moves, x, y, -1, -1);
    add_offset(&mut moves, x, y, 1, 0);
    add_offset(&mut moves, x, y, -1, 0);
    proof {
        let f = coord.idx();
        lemma_parts_of_square(x as int, y as int);
        assert forall|t: int| moves@.contains(t) == king_target(f, t) by {
            if on_board(t) {
                lemma_square_parts(t);
            }
            if moves@.contains(t) {
                assert(on_board(t));
            }
        }
        assert(moves@ =~= Set::new(|t: int| king_target(f, t)));
    }
    moves
}

/// The squares that a pawn of `color` on `coord` may advance to on an empty
/// board.
pub fn all_pawn_moves(coord: Coord, color: bool) -> (r: BitBoard)
    requires
        coord.wf(),
    ensures
        r@ == Set::new(|t: int| pawn_push_target(color, coord.idx(), t)),
{
    let mut moves = BitBoard::new();
    let x = coord.x;
    let y = coord.y;
    if color {
        add_offset(&mut moves, x, y, 0, 1);
        if y == 1 {
            add_offset(&mut moves, x, y, 0, 2);
        }
    } else {
        add_offset(&mut moves, x, y, 0, -1);
        if y == 6 {
            add_offset(&mut moves, x, y, 0, -2);
        }
    }
    proof {
        let f = coord.idx();
        lemma_parts_of_square(x as int, y as int);
        assert forall|t: int| moves@.contains(t) == pawn_push_target(color, f, t) by {
            if on_board(t) {
                lemma_square_parts(t);
            }
            if moves@.contains(t) {
                assert(on_board(t));
            }
        }
        assert(moves@ =~= Set::new(|t: int| pawn_push_target(color, f, t)));
    }
    moves
}

/// The squares that a pawn of `color` on `coord` attacks.
pub fn all_pawn_attacks(coord: Coord, color: bool) -> (r: BitBoard)
    requires
        coord.wf(),
    ensures
        r@ == Set::new(|t: int| pawn_attack_target(color, coord.idx(), t)),
{
    let mut moves = BitBoard::new();
    let x = coord.x;
    let y = coord.y;
    if color {
        add_offset(&mut moves, x, y, 1, 1);
        add_offset(&mut moves, x, y, -1, 1);
    } else {
        add_offset(&mut moves, x, y, 1, -1);
        add_offset(&mut moves, x, y, -1, -1);
    }
    proof {
        let f = coord.idx();
        lemma_parts_of_square(x as int, y as int);
        assert forall|t: int| moves@.contains(t) == pawn_attack_target(color, f, t) by {
            if on_board(t) {
                lemma_square_parts(t);
            }
            if moves@.contains(t) {
                assert(on_board(t));
            }
        }
        assert(moves@ =~= Set::new(|t: int| pawn_attack_target(color, f, t)));
    }
    moves
}

/// The knight table: for each square, the squares a knight there reaches.
pub fn init_knight_moves() -> (r: Vec<BitBoard>)
    ensures
        r@.len() == 64,
        forall|i: int| 0 <= i < 64 ==> (#[trigger] r@[i])@ == Set::new(|t: int| knight_target(i, t)),
{
    let mut moves: Vec<BitBoard> = Vec::new();
    let mut i: u8 = 0;
    while i < 64
        invariant
            0 <= i <= 64,
            moves@.len() == i,
            forall|j: int| 0 <= j < i ==> (#[trigger] moves@[j])@ == Set::new(|t: int| knight_target(j, t)),
        decreases 64 - i,
    {
        moves.push(all_knight_moves(Coord::from_index(i)));
        i = i + 1;
    }
    moves
}

/// The king table: for each square, the squares a king there reaches.
pub fn init_king_moves() -> (r: Vec<BitBoard>)
    ensures
        r@.len() == 64,
        forall|i: int| 0 <= i < 64 ==> (#[trigger] r@[i])@ == Set::new(|t: int| king_target(i, t)),
{
    let mut moves: Vec<BitBoard> = Vec::new();
    let mut i: u8 = 0;
    while i < 64
        invariant
            0 <= i <= 64,
            moves@.len() == i,
            forall|j: int| 0 <= j < i ==> (#[trigger] moves@[j])@ == Set::new(|t: int| king_target(j, t)),
        decreases 64 - i,
    {
        moves.push(all_king_moves(Coord::from_index(i)));
        i = i + 1;
    }
    moves
}

/// The pawn advance tables, black first: for each square, the squares a pawn
/// there may advance to on an empty board.
pub fn init_pawn_moves() -> (r: (Vec<BitBoard>, Vec<BitBoard>))
    ensures
        r.0@.len() == 64,
        r.1@.len() == 64,
        forall|i: int| 0 <= i < 64 ==> (#[trigger] r.0@[i])@ == Set::new(|t: int| pawn_push_target(false, i, t)),
        forall|i: int| 0 <= i < 64 ==> (#[trigger] r.1@[i])@ == Set::new(|t: int| pawn_push_target(true, i, t)),
{
    let mut black: Vec<BitBoard> = Vec::new();
    let mut white: Vec<BitBoard> = Vec::new();
    let mut i: u8 = 0;
    while i < 64
        invariant
            0 <= i <= 64,
            black@.len() == i,
            white@.len() == i,
            forall|j: int| 0 <= j < i ==> (#[trigger] black@[j])@ == Set::new(|t: int| pawn_push_target(false, j, t)),
            forall|j: int| 0 <= j < i ==> (#[trigger] white@[j])@ == Set::new(|t: int| pawn_push_target(true, j, t)),
        decreases 64 - i,
    {
        black.push(all_pawn_moves(Coord::from_index(i), false));
        white.push(all_pawn_moves(Coord::from_index(i), true));
        i = i + 1;
    }
    (black, white)
}

/// The pawn attack tables, black first: for each square, the squares a pawn
/// there attacks.
pub fn init_pawn_attacks() -> (r: (Vec<BitBoard>, Vec<BitBoard>))
    ensures
        r.0@.len() == 64,
        r.1@.len() == 64,
        forall|i: int| 0 <= i < 64 ==> (#[trigger] r.0@[i])@ == Set::new(|t: int| pawn_attack_target(false, i, t)),
        forall|i: int| 0 <= i < 64 ==> (#[trigger] r.1@[i])@ == Set::new(|t: int| pawn_attack_target(true, i, t)),
{
    let mut black: Vec<BitBoard> = Vec::new();
    let mut white: Vec<BitBoard> = Vec::new();
    let mut i: u8 = 0;
    while i < 64
        invariant
            0 <= i <= 64,
            black@.len() == i,
            white@.len() == i,
            forall|j: int| 0 <= j < i ==> (#[trigger] black@[j])@ == Set::new(|t: int| pawn_attack_target(false, j, t)),
            forall|j: int| 0 <= j < i ==> (#[trigger] white@[j])@ == Set::new(|t: int| pawn_attack_target(true, j, t)),
        decreases 64 - i,
    {
        black.push(all_pawn_attacks(Coord::from_index(i), false));
        white.push(all_pawn_attacks(Coord::from_index(i), true));
        i = i + 1;
    }
    (black, white)
}

/// Adds to `moves` the ray from `(x, y)` in direction `(dx, dy)`, stopping at
/// the edge or after the first square held in `blockers`. Each step checks the
/// bounds before it moves, so no ray wraps round an edge.
fn cast_ray(moves: BitBoard, x: u8, y: u8, dx: i8, dy: i8, blockers: BitBoard) -> (r: BitBoard)
    requires
        x < 8,
        y < 8,
        -1 <= dx <= 1,
        -1 <= dy <= 1,
    ensures
        r@ == moves@.union(ray(x as int, y as int, dx as int, dy as int, blockers@, 7)),
{
    let mut acc = moves;
    let mut cx: i8 = x as i8;
    let mut cy: i8 = y as i8;
    let mut fuel: u8 = 7;
    while fuel > 0
        invariant
            0 <= cx < 8,
            0 <= cy < 8,
            fuel <= 7,
            -1 <= dx <= 1,
            -1 <= dy <= 1,
            acc@.union(ray(cx as int, cy as int, dx as int, dy as int, blockers@, fuel as nat))
                == moves@.union(ray(x as int, y as int, dx as int, dy as int, blockers@, 7)),
        decreases fuel,
    {
        let nx: i8 = cx + dx;
        let ny: i8 = cy + dy;
        let ghost rest = ray(cx as int, cy as int, dx as int, dy as int, blockers@, fuel as nat);
        if nx < 0 || nx >= 8 || ny < 0 || ny >= 8 {
            assert(rest == Set::<int>::empty());
            fuel = 0;
            assert(acc@.union(rest) =~= acc@.union(Set::<int>::empty()));
        } else {
            let sq: u8 = (nx as u8) + 8 * (ny as u8);
            let ghost before = acc@;
            acc.set_index(sq);
            if blockers.get_index(sq) {
                assert(rest == set![sq as int]);
                fuel = 0;
                assert(acc@.union(Set::<int>::empty()) =~= before.union(rest));
            } else {
                let ghost next = ray(nx as int, ny as int, dx as int, dy as int, blockers@, (fuel - 1) as nat);
                assert(rest == next.insert(sq as int));
                cx = nx;
                cy = ny;
                fuel = fuel - 1;
                assert(acc@.union(next) =~= before.union(rest));
            }
        }
    }
    assert(acc@.union(Set::<int>::empty()) =~= acc@);
    acc
}

/// The lowest square of a board that holds one square.
fn single_square(b: BitBoard) -> (r: Coord)
    requires
        exists|s: int| 0 <= s < 64 && b@ == set![s],
    ensures
        r.wf(),
        b@ == set![r.idx()],
{
    let t = b.trailing_zeros();
    let c = Coord::from_index(t);
    proof {
        let s = choose|s: int| 0 <= s < 64 && b@ == set![s];
        assert(b@.contains(s));
        assert(t < 64);
        assert(b@.contains(t as int));
    }
    c
}

/// The squares that a bishop on the one square of `bishop_bitboard` reaches,
/// each diagonal ending at the edge or at the first square of `blockers`,
/// which is included as a possible capture.
pub fn get_bishop_moves(bishop_bitboard: BitBoard, blockers: BitBoard) -> (r: BitBoard)
    requires
        exists|s: int| 0 <= s < 64 && bishop_bitboard@ == set![s],
    ensures
        forall|s: int| bishop_bitboard@ == set![s] ==> r@ == bishop_reach(s, blockers@),
{
    let c = single_square(bishop_bitboard);
    let x = c.x;
    let y = c.y;
    let mut moves = BitBoard::new();
    moves = cast_ray(moves, x, y, 1, 1, blockers);
    moves = cast_ray(moves, x, y, -1, 1, blockers);
    moves = cast_ray(moves, x, y, 1, -1, blockers);
    moves = cast_ray(moves, x, y, -1, -1, blockers);
    proof {
        lemma_parts_of_square(x as int, y as int);
        assert forall|s: int| bishop_bitboard@ == set![s] implies moves@ == bishop_reach(s, blockers@) by {
            assert(bishop_bitboard@.contains(c.idx()));
            assert(s == c.idx());
            assert(moves@ =~= bishop_reach(s, blockers@));
        }
    }
    moves
}

/// The squares that a rook on the one square of `rook_bitboard` reaches, each
/// line ending at the edge or at the first square of `blockers`, which is
/// included as a possible capture.
pub fn generate_blocked_moves(rook_bitboard: BitBoard, blockers: BitBoard) -> (r: BitBoard)
    requires
        exists|s: int| 0 <= s < 64 && rook_bitboard@ == set![s],
    ensures
        forall|s: int| rook_bitboard@ == set![s] ==> r@ == rook_reach(s, blockers@),
{
    let c = single_square(rook_bitboard);
    let x = c.x;
    let y = c.y;
    let mut moves = BitBoard::new();
    moves = cast_ray(moves, x, y, 1, 0, blockers);
    moves = cast_ray(moves, x, y, -1, 0, blockers);
    moves = cast_ray(moves, x, y, 0, 1, blockers);
    moves = cast_ray(moves, x, y, 0, -1, blockers);
    proof {
        lemma_parts_of_square(x as int, y as int);
        assert forall|s: int| rook_bitboard@ == set![s] implies moves@ == rook_reach(s, blockers@) by {
            assert(rook_bitboard@.contains(c.idx()));
            assert(s == c.idx());
            assert(moves@ =~= rook_reach(s, blockers@));
        }
    }
    moves
}

/// The squares that a rook on the one square of `rook_bitboard` reaches
/// against `blockers`.
pub fn get_rook_moves(rook_bitboard: BitBoard, blockers: BitBoard) -> (r: BitBoard)
    requires
        exists|s: int| 0 <= s < 64 && rook_bitboard@ == set![s],
    ensures
        forall|s: int| rook_bitboard@ == set![s] ==> r@ == rook_reach(s, blockers@),
{
    generate_blocked_moves(rook_bitboard, blockers)
}

/// The square `i` steps from `(x, y)` in direction `(dx, dy)`.
pub open spec fn ray_step(x: int, y: int, dx: int, dy: int, i: int) -> int {
    square_of(x + i * dx, y + i * dy)
}

/// Whether the point `i` steps from `(x, y)` in direction `(dx, dy)` lies on the board.
pub open spec fn step_on_board(x: int, y: int, dx: int, dy: int, i: int) -> bool {
    0 <= x + i * dx < 8 && 0 <= y + i * dy < 8
}

proof fn lemma_step_shift(x: int, y: int, dx: int, dy: int, i: int)
    ensures
        (x + dx) + i * dx == x + (i + 1) * dx,
        (y + dy) + i * dy == y + (i + 1) * dy,
        x + 1 * dx == x + dx,
        y + 1 * dy == y + dy,
{
    assert((x + dx) + i * dx == x + (i + 1) * dx) by (nonlinear_arith);
    assert((y + dy) + i * dy == y + (i + 1) * dy) by (nonlinear_arith);
}

proof fn lemma_steps_distinct(x: int, y: int, dx: int, dy: int, i: int, j: int)
    requires
        -1 <= dx <= 1,
        -1 <= dy <= 1,
        dx != 0 || dy != 0,
        i != j,
    ensures
        ray_step(x, y, dx, dy, i) != ray_step(x, y, dx, dy, j),
{
    assert(ray_step(x, y, dx, dy, j) - ray_step(x, y, dx, dy, i) == (j - i) * (dx + 8 * dy))
        by (nonlinear_arith);
    assert(dx + 8 * dy != 0);
    assert((j - i) * (dx + 8 * dy) != 0) by (nonlinear_arith)
        requires
            i != j,
            dx + 8 * dy != 0,
    ;
}

/// A ray cast halts at its first blocker: when the squares one to `k` steps
/// away lie on the board and none before the `k`-th is a blocker, the ray
/// holds the `k`-th square; when that square is a blocker, the ray is exactly
/// the squares one to `k` steps away, so it holds the blocker and no square
/// beyond it.
pub proof fn lemma_ray_blocker_halt(x: int, y: int, dx: int, dy: int, blockers: Set<int>, fuel: nat, k: int)
    requires
        -1 <= dx <= 1,
        -1 <= dy <= 1,
        dx != 0 || dy != 0,
        1 <= k <= fuel,
        forall|i: int| 1 <= i <= k ==> #[trigger] step_on_board(x, y, dx, dy, i),
        forall|i: int| 1 <= i < k ==> !blockers.contains(#[trigger] ray_step(x, y, dx, dy, i)),
    ensures
        ray(x, y, dx, dy, blockers, fuel).contains(ray_step(x, y, dx, dy, k)),
        blockers.contains(ray_step(x, y, dx, dy, k)) ==> ray(x, y, dx, dy, blockers, fuel) == Set::new(
            |t: int| exists|i: int| 1 <= i <= k && t == #[trigger] ray_step(x, y, dx, dy, i),
        ),
        blockers.contains(ray_step(x, y, dx, dy, k)) ==> forall|j: int|
            j > k ==> !ray(x, y, dx, dy, blockers, fuel).contains(#[trigger] ray_step(x, y, dx, dy, j)),
    decreases k,
{
    lemma_step_shift(x, y, dx, dy, 0);
    assert(step_on_board(x, y, dx, dy, 1));
    let s1 = ray_step(x, y, dx, dy, 1);
    assert(s1 == square_of(x + dx, y + dy));
    let target = Set::new(|t: int| exists|i: int| 1 <= i <= k && t == #[trigger] ray_step(x, y, dx, dy, i));
    if k == 1 {
        if blockers.contains(s1) {
            assert forall|t: int| target.contains(t) <==> t == s1 by {
                if t == s1 {
                    assert(1 <= 1 <= k && t == ray_step(x, y, dx, dy, 1));
                }
            }
            assert(ray(x, y, dx, dy, blockers, fuel) =~= target);
        }
    } else {
        assert(!blockers.contains(s1));
        let nx = x + dx;
        let ny = y + dy;
        assert forall|i: int| 1 <= i <= k - 1 implies #[trigger] step_on_board(nx, ny, dx, dy, i) by {
            lemma_step_shift(x, y, dx, dy, i);
            assert(step_on_board(x, y, dx, dy, i + 1));
        }
        assert forall|i: int| 1 <= i < k - 1 implies !blockers.contains(#[trigger] ray_step(nx, ny, dx, dy, i)) by {
            lemma_step_shift(x, y, dx, dy, i);
            assert(ray_step(nx, ny, dx, dy, i) == ray_step(x, y, dx, dy, i + 1));
        }
        lemma_ray_blocker_halt(nx, ny, dx, dy, blockers, (fuel - 1) as nat, k - 1);
        lemma_step_shift(x, y, dx, dy, k - 1);
        assert(ray_step(nx, ny, dx, dy, k - 1) == ray_step(x, y, dx, dy, k));
        let rest = ray(nx, ny, dx, dy, blockers, (fuel - 1) as nat);
        assert(ray(x, y, dx, dy, blockers, fuel) == rest.insert(s1));
        if blockers.contains(ray_step(x, y, dx, dy, k)) {
            let inner = Set::new(|t: int| exists|i: int| 1 <= i <= k - 1 && t == #[trigger] ray_step(nx, ny, dx, dy, i));
            assert(rest == inner);
            assert forall|t: int| target.contains(t) <==> rest.insert(s1).contains(t) by {
                if target.contains(t) {
                    let i = choose|i: int| 1 <= i <= k && t == #[trigger] ray_step(x, y, dx, dy, i);
                    if i > 1 {
                        lemma_step_shift(x, y, dx, dy, i - 1);
                        assert(t == ray_step(nx, ny, dx, dy, i - 1));
                        assert(inner.contains(t));
                    }
                }
                if rest.contains(t) {
                    let i = choose|i: int| 1 <= i <= k - 1 && t == #[trigger] ray_step(nx, ny, dx, dy, i);
                    lemma_step_shift(x, y, dx, dy, i);
                    assert(t == ray_step(x, y, dx, dy, i + 1));
                }
                if t == s1 {
                    assert(1 <= 1 <= k && t == ray_step(x, y, dx, dy, 1));
                }
            }
            assert(ray(x, y, dx, dy, blockers, fuel) =~= target);
        }
    }
    if blockers.contains(ray_step(x, y, dx, dy, k)) {
        assert forall|j: int| j > k implies !ray(x, y, dx, dy, blockers, fuel).contains(#[trigger] ray_step(x, y, dx, dy, j)) by {
            if ray(x, y, dx, dy, blockers, fuel).contains(ray_step(x, y, dx, dy, j)) {
                assert(target.contains(ray_step(x, y, dx, dy, j)));
                let i = choose|i: int| 1 <= i <= k && ray_step(x, y, dx, dy, j) == #[trigger] ray_step(x, y, dx, dy, i);
                lemma_steps_distinct(x, y, dx, dy, i, j);
            }
        }
    }
}

/// The number of squares of `ray(x, y, dx, dy, blockers, fuel)`: the steps
/// taken before the edge, the first blocker (counted), or the end of `fuel`.
pub open spec fn ray_len(x: int, y: int, dx: int, dy: int, blockers: Set<int>, fuel: nat) -> nat
    decreases fuel,
{
    if fuel == 0 || !(0 <= x + dx < 8 && 0 <= y + dy < 8) {
        0
    } else if blockers.contains(square_of(x + dx, y + dy)) {
        1
    } else {
        1 + ray_len(x + dx, y + dy, dx, dy, blockers, (fuel - 1) as nat)
    }
}

/// The squares one to `len` steps from `(x, y)` in direction `(dx, dy)`.
pub open spec fn steps_upto(x: int, y: int, dx: int, dy: int, len: int) -> Set<int> {
    Set::new(|t: int| exists|i: int| 1 <= i <= len && t == #[trigger] ray_step(x, y, dx, dy, i))
}

/// A ray is the run of steps up to its length; every step of the run is on
/// the board and only the last may be a blocker; the run ends on a blocker,
/// or before the edge, or when `fuel` runs out.
pub proof fn lemma_ray_steps(x: int, y: int, dx: int, dy: int, blockers: Set<int>, fuel: nat)
    ensures
        ray(x, y, dx, dy, blockers, fuel) == steps_upto(x, y, dx, dy, ray_len(x, y, dx, dy, blockers, fuel) as int),
        ray_len(x, y, dx, dy, blockers, fuel) <= fuel,
        forall|i: int| 1 <= i <= ray_len(x, y, dx, dy, blockers, fuel) ==> #[trigger] step_on_board(x, y, dx, dy, i),
        forall|i: int| 1 <= i < ray_len(x, y, dx, dy, blockers, fuel) ==> !blockers.contains(#[trigger] ray_step(x, y, dx, dy, i)),
        ({
            let len = ray_len(x, y, dx, dy, blockers, fuel) as int;
            (len > 0 && blockers.contains(ray_step(x, y, dx, dy, len))) || !step_on_board(x, y, dx, dy, len + 1) || len == fuel
        }),
    decreases fuel,
{
    lemma_step_shift(x, y, dx, dy, 0);
    let len = ray_len(x, y, dx, dy, blockers, fuel) as int;
    let target = steps_upto(x, y, dx, dy, len);
    let s1 = ray_step(x, y, dx, dy, 1);
    if fuel == 0 || !(0 <= x + dx < 8 && 0 <= y + dy < 8) {
        assert(target =~= Set::<int>::empty());
        assert(!step_on_board(x, y, dx, dy, 1) || len == fuel);
    } else if blockers.contains(square_of(x + dx, y + dy)) {
        assert forall|t: int| target.contains(t) <==> t == s1 by {
            if t == s1 {
                assert(1 <= 1 <= len && t == ray_step(x, y, dx, dy, 1));
            }
        }
        assert(ray(x, y, dx, dy, blockers, fuel) =~= target);
        assert(step_on_board(x, y, dx, dy, 1));
    } else {
        let nx = x + dx;
        let ny = y + dy;
        let f1 = (fuel - 1) as nat;
        lemma_ray_steps(nx, ny, dx, dy, blockers, f1);
        let inner_len = ray_len(nx, ny, dx, dy, blockers, f1) as int;
        assert(len == inner_len + 1);
        let rest = ray(nx, ny, dx, dy, blockers, f1);
        assert forall|t: int| target.contains(t) <==> rest.insert(s1).contains(t) by {
            if target.contains(t) {
                let i = choose|i: int| 1 <= i <= len && t == #[trigger] ray_step(x, y, dx, dy, i);
                if i > 1 {
                    lemma_step_shift(x, y, dx, dy, i - 1);
                    assert(t == ray_step(nx, ny, dx, dy, i - 1));
                    assert(steps_upto(nx, ny, dx, dy, inner_len).contains(t));
                }
            }
            if rest.contains(t) {
                assert(steps_upto(nx, ny, dx, dy, inner_len).contains(t));
                let i = choose|i: int| 1 <= i <= inner_len && t == #[trigger] ray_step(nx, ny, dx, dy, i);
                lemma_step_shift(x, y, dx, dy, i);
                assert(t == ray_step(x, y, dx, dy, i + 1));
            }
            if t == s1 {
                assert(1 <= 1 <= len && t == ray_step(x, y, dx, dy, 1));
            }
        }
        assert(ray(x, y, dx, dy, blockers, fuel) =~= target);
        assert forall|i: int| 1 <= i <= len implies #[trigger] step_on_board(x, y, dx, dy, i) by {
            if i > 1 {
                lemma_step_shift(x, y, dx, dy, i - 1);
                assert(step_on_board(nx, ny, dx, dy, i - 1));
            }
        }
        assert forall|i: int| 1 <= i < len implies !blockers.contains(#[trigger] ray_step(x, y, dx, dy, i)) by {
            if i > 1 {
                lemma_step_shift(x, y, dx, dy, i - 1);
                assert(ray_step(nx, ny, dx, dy, i - 1) == ray_step(x, y, dx, dy, i));
            }
        }
        lemma_step_shift(x, y, dx, dy, inner_len);
        assert(ray_step(nx, ny, dx, dy, inner_len) == ray_step(x, y, dx, dy, len));
        lemma_step_shift(x, y, dx, dy, inner_len + 1);
        assert(step_on_board(nx, ny, dx, dy, inner_len + 1) == step_on_board(x, y, dx, dy, len + 1));
    }
}

/// A direction in which a bishop moves.
pub open spec fn diagonal(dx: int, dy: int) -> bool {
    (dx == 1 || dx == -1) && (dy == 1 || dy == -1)
}

/// A direction in which a rook moves.
pub open spec fn straight(dx: int, dy: int) -> bool {
    (dx == 0 && (dy == 1 || dy == -1)) || (dy == 0 && (dx == 1 || dx == -1))
}

/// Where the ray from `(x, y)` in direction `(dx, dy)` halts: after `len`
/// squares on the board, none before the last a blocker, and the last a
/// blocker or the last before the edge.
pub open spec fn halts_at(x: int, y: int, dx: int, dy: int, blockers: Set<int>, len: int) -> bool {
    &&& forall|i: int| 1 <= i <= len ==> #[trigger] step_on_board(x, y, dx, dy, i)
    &&& forall|i: int| 1 <= i < len ==> !blockers.contains(#[trigger] ray_step(x, y, dx, dy, i))
    &&& (len > 0 && blockers.contains(ray_step(x, y, dx, dy, len))) || !step_on_board(x, y, dx, dy, len + 1)
}

proof fn lemma_direction_halts(x: int, y: int, dx: int, dy: int, blockers: Set<int>)
    requires
        0 <= x < 8,
        0 <= y < 8,
        diagonal(dx, dy) || straight(dx, dy),
    ensures
        halts_at(x, y, dx, dy, blockers, ray_len(x, y, dx, dy, blockers, 7) as int),
        ray(x, y, dx, dy, blockers, 7) == steps_upto(x, y, dx, dy, ray_len(x, y, dx, dy, blockers, 7) as int),
{
    lemma_ray_steps(x, y, dx, dy, blockers, 7);
    assert(!step_on_board(x, y, dx, dy, 8));
}

/// A bishop's ray cast halts at the first blocker on each diagonal: the
/// squares it reaches are, on each of the four diagonals, the run of steps up
/// to that diagonal's halt, which holds the first blocker and nothing beyond
/// it, and stops before the edge otherwise; no other square is reached.
pub proof fn lemma_bishop_reach_halts(sq: int, blockers: Set<int>)
    requires
        0 <= sq < 64,
    ensures
        forall|dx: int, dy: int|
            diagonal(dx, dy) ==> #[trigger] halts_at(sq % 8, sq / 8, dx, dy, blockers, ray_len(sq % 8, sq / 8, dx, dy, blockers, 7) as int),
        forall|t: int|
            bishop_reach(sq, blockers).contains(t) <==> exists|dx: int, dy: int|
                diagonal(dx, dy) && #[trigger] steps_upto(sq % 8, sq / 8, dx, dy, ray_len(sq % 8, sq / 8, dx, dy, blockers, 7) as int).contains(t),
{
    let x = sq % 8;
    let y = sq / 8;
    lemma_direction_halts(x, y, 1, 1, blockers);
    lemma_direction_halts(x, y, -1, 1, blockers);
    lemma_direction_halts(x, y, 1, -1, blockers);
    lemma_direction_halts(x, y, -1, -1, blockers);
    assert forall|t: int| bishop_reach(sq, blockers).contains(t) implies exists|dx: int, dy: int|
        diagonal(dx, dy) && #[trigger] steps_upto(x, y, dx, dy, ray_len(x, y, dx, dy, blockers, 7) as int).contains(t) by {
        if ray(x, y, 1, 1, blockers, 7).contains(t) {
            assert(diagonal(1, 1));
        } else if ray(x, y, -1, 1, blockers, 7).contains(t) {
            assert(diagonal(-1, 1));
        } else if ray(x, y, 1, -1, blockers, 7).contains(t) {
            assert(diagonal(1, -1));
        } else {
            assert(diagonal(-1, -1));
        }
    }
}

/// A rook's ray cast halts at the first blocker on each line: the squares it
/// reaches are, on each of its rank and file directions, the run of steps up
/// to that direction's halt, which holds the first blocker and nothing beyond
/// it, and stops before the edge otherwise; no other square is reached.
pub proof fn lemma_rook_reach_halts(sq: int, blockers: Set<int>)
    requires
        0 <= sq < 64,
    ensures
        forall|dx: int, dy: int|
            straight(dx, dy) ==> #[trigger] halts_at(sq % 8, sq / 8, dx, dy, blockers, ray_len(sq % 8, sq / 8, dx, dy, blockers, 7) as int),
        forall|t: int|
            rook_reach(sq, blockers).contains(t) <==> exists|dx: int, dy: int|
                straight(dx, dy) && #[trigger] steps_upto(sq % 8, sq / 8, dx, dy, ray_len(sq % 8, sq / 8, dx, dy, blockers, 7) as int).contains(t),
{
    let x = sq % 8;
    let y = sq / 8;
    lemma_direction_halts(x, y, 1, 0, blockers);
    lemma_direction_halts(x, y, -1, 0, blockers);
    lemma_direction_halts(x, y, 0, 1, blockers);
    lemma_direction_halts(x, y, 0, -1, blockers);
    assert forall|t: int| rook_reach(sq, blockers).contains(t) implies exists|dx: int, dy: int|
        straight(dx, dy) && #[trigger] steps_upto(x, y, dx, dy, ray_len(x, y, dx, dy, blockers, 7) as int).contains(t) by {
        if ray(x, y, 1, 0, blockers, 7).contains(t) {
            assert(straight(1, 0));
        } else if ray(x, y, -1, 0, blockers, 7).contains(t) {
            assert(straight(-1, 0));
        } else if ray(x, y, 0, 1, blockers, 7).contains(t) {
            assert(straight(0, 1));
        } else {
            assert(straight(0, -1));
        }
    }
}

} // verus!
