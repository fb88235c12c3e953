//! The pseudo-legal move generator and the attack set calculator.
//!
//! A set of squares is held as 64 marks, one per square.

use vstd::prelude::*;
use crate::board::BoardState;
use crate::piece::PieceKind;
use crate::rules::{
    between, distance, file_delta, file_of, knight_jump, on_board, on_line, rank_delta, rank_of,
    sign,
};

verus! {

/// The set of squares that a row of marks stands for.
pub open spec fn marked(marks: Seq<bool>) -> Set<int> {
    Set::new(|sq: int| 0 <= sq < marks.len() && marks[sq])
}

/// `to` lies `dr` ranks above and `df` files right of `from`.
pub open spec fn offset(from: int, to: int, dr: int, df: int) -> bool {
    rank_delta(from, to) == dr && file_delta(from, to) == df
}

/// `to` lies on the ray that leaves `from` in the direction `(dr, df)`.
pub open spec fn along(from: int, to: int, dr: int, df: int) -> bool {
    &&& on_line(from, to)
    &&& sign(rank_delta(from, to)) == dr
    &&& sign(file_delta(from, to)) == df
}

/// The squares of `list` ascend, so that none occurs twice.
pub open spec fn ascending(list: Seq<u8>) -> bool {
    forall|i: int, j: int| 0 <= i < j < list.len() ==> list[i] < list[j]
}

/// `list` holds exactly the members of `set`, in ascending order.
pub open spec fn lists(list: Seq<u8>, set: Set<int>) -> bool {
    &&& ascending(list)
    &&& forall|d: u8| #[trigger] list.contains(d) <==> set.contains(d as int)
}

/// The square of a rank and a file.
proof fn lemma_square(rank: int, file: int)
    requires
        0 <= rank < 8,
        0 <= file < 8,
    ensures
        on_board(rank * 8 + file),
        rank_of(rank * 8 + file) == rank,
        file_of(rank * 8 + file) == file,
{
}

/// A square is given by its rank and its file.
proof fn lemma_square_unique(a: int, b: int)
    requires
        rank_of(a) == rank_of(b),
        file_of(a) == file_of(b),
    ensures
        a == b,
{
}

impl BoardState {
    /// Adds to `marks` the square at the offset `(dr, df)` from `from`, if it
    /// is on the board, holds no piece of the mover's colour and is not in
    /// `danger`.
    fn mark_step(
        &self,
        marks: [bool; 64],
        from: u8,
        dr: i8,
        df: i8,
        white: bool,
        danger: &[bool; 64],
    ) -> (r: [bool; 64])
        requires
            from < 64,
            -2 <= dr <= 2,
            -2 <= df <= 2,
        ensures
            forall|d: int|
                #![trigger r@[d]]
                0 <= d < 64 ==> r@[d] == (marks@[d] || (offset(from as int, d, dr as int, df as int)
                    && !self@.holds(d, white) && !danger@[d])),
    {
        proof {
            use_type_invariant(self);
        }
        let rank: i8 = (from / 8) as i8;
        let file: i8 = (from % 8) as i8;
        let new_rank: i8 = rank + dr;
        let new_file: i8 = file + df;
        let mut out = marks;
        if 0 <= new_rank && new_rank < 8 && 0 <= new_file && new_file < 8 {
            let target: u8 = (new_rank * 8 + new_file) as u8;
            proof {
                lemma_square(new_rank as int, new_file as int);
            }
            let free = match self.piece_at(target) {
                Some(piece) => piece.white != white,
                None => true,
            };
            if free && !danger[target as usize] {
                out[target as usize] = true;
            }
            assert forall|d: int| 0 <= d < 64 && offset(from as int, d, dr as int, df as int)
                implies d == target by {
                lemma_square_unique(d, target as int);
            }
        }
        out
    }

    /// The squares to which a pawn of the given colour on `from` may move.
    fn pawn_marks(&self, from: u8, white: bool) -> (r: [bool; 64])
        requires
            from < 64,
        ensures
            forall|d: int|
                #![trigger r@[d]]
                0 <= d < 64 ==> r@[d] == (self@.pawn_push(white, from as int, d)
                    || self@.pawn_capture(white, from as int, d)),
    {
        proof {
            use_type_invariant(self);
        }
        let mut out = [false;64];
        let direction: i8 = if white {
            1
        } else {
            -1
        };
        let start_rank: i8 = if white {
            1
        } else {
            6
        };
        let rank: i8 = (from / 8) as i8;
        let file: i8 = (from % 8) as i8;
        let forward_rank: i8 = rank + direction;
        if 0 <= forward_rank && forward_rank < 8 {
            let forward_square: u8 = (forward_rank * 8 + file) as u8;
            if self.piece_at(forward_square).is_none() {
                out[forward_square as usize] = true;
                if rank == start_rank {
                    let double_square: u8 = ((rank + 2 * direction) * 8 + file) as u8;
                    if self.piece_at(double_square).is_none() {
                        out[double_square as usize] = true;
                    }
                }
            }
            out = self.mark_capture(out, forward_rank, file - 1, white);
            out = self.mark_capture(out, forward_rank, file + 1, white);
        }
        out
    }

    /// Adds to `marks` the square of `rank` and `file` if a pawn of the given
    /// colour may capture onto it: it holds an enemy piece, or it is empty and
    /// the en passant target.
    fn mark_capture(&self, marks: [bool; 64], rank: i8, file: i8, white: bool) -> (r: [bool; 64])
        requires
            0 <= rank < 8,
            -1 <= file <= 8,
        ensures
            forall|d: int|
                #![trigger r@[d]]
                0 <= d < 64 ==> r@[d] == (marks@[d] || (rank_of(d) == rank && file_of(d) == file && (
                self@.holds(d, !white) || (self@.vacant(d) && self@.en_passant == Some(d as u8))))),
    {
        proof {
            use_type_invariant(self);
        }
        let mut out = marks;
        if 0 <= file && file < 8 {
            let target: u8 = (rank * 8 + file) as u8;
            let hit = match self.piece_at(target) {
                Some(piece) => piece.white != white,
                None => match self.en_passant_square() {
                    Some(e) => e == target,
                    None => false,
                },
            };
            if hit {
                out[target as usize] = true;
            }
            assert forall|d: int| 0 <= d < 64 && rank_of(d) == rank && file_of(d) == file
                implies d == target by {
                lemma_square_unique(d, target as int);
            }
        }
        out
    }

    /// The squares to which a knight of the given colour on `from` may jump.
    fn knight_marks(&self, from: u8, white: bool) -> (r: [bool; 64])
        requires
            from < 64,
        ensures
            forall|d: int|
                #![trigger r@[d]]
                0 <= d < 64 ==> r@[d] == (knight_jump(from as int, d) && !self@.holds(d, white)),
    {
        let calm = [false;64];
        let mut out = [false;64];
        out = self.mark_step(out, from, -2, -1, white, &calm);
        out = self.mark_step(out, from, -2, 1, white, &calm);
        out = self.mark_step(out, from, -1, -2, white, &calm);
        out = self.mark_step(out, from, -1, 2, white, &calm);
        out = self.mark_step(out, from, 1, -2, white, &calm);
        out = self.mark_step(out, from, 1, 2, white, &calm);
        out = self.mark_step(out, from, 2, -1, white, &calm);
        out = self.mark_step(out, from, 2, 1, white, &calm);
        out
    }

    /// The squares next to `from` onto which a king of the given colour may
    /// step: those that hold no piece of its colour and are not in `danger`.
    fn king_step_marks(&self, from: u8, white: bool, danger: &[bool; 64]) -> (r: [bool; 64])
        requires
            from < 64,
        ensures
            forall|d: int|
                #![trigger r@[d]]
                0 <= d < 64 ==> r@[d] == (distance(from as int, d) == 1 && !self@.holds(d, white)
                    && !danger@[d]),
    {
        let mut out = [false;64];
        out = self.mark_step(out, from, -1, -1, white, danger);
        out = self.mark_step(out, from, -1, 0, white, danger);
        out = self.mark_step(out, from, -1, 1, white, danger);
        out = self.mark_step(out, from, 0, -1, white, danger);
        out = self.mark_step(out, from, 0, 1, white, danger);
        out = self.mark_step(out, from, 1, -1, white, danger);
        out = self.mark_step(out, from, 1, 0, white, danger);
        out = self.mark_step(out, from, 1, 1, white, danger);
        out
    }

    /// Casts a ray from `from` in the direction `(dr, df)` and adds to `marks`
    /// what a sliding piece of the given colour reaches on it: every empty
    /// square up to the first piece, and that piece's square if it is an
    /// enemy's.
    #[verifier::rlimit(40)]
    fn cast_ray(&self, marks: [bool; 64], from: u8, dr: i8, df: i8, white: bool) -> (r: [
        bool;
        64
    ])
        requires
            from < 64,
            -1 <= dr <= 1,
            -1 <= df <= 1,
            dr != 0 || df != 0,
        ensures
            forall|d: int|
                #![trigger r@[d]]
                0 <= d < 64 ==> r@[d] == (marks@[d] || (along(from as int, d, dr as int, df as int)
                    && self@.clear_between(from as int, d) && !self@.holds(d, white))),
    {
        proof {
            use_type_invariant(self);
        }
        let rank0: i8 = (from / 8) as i8;
        let file0: i8 = (from % 8) as i8;
        let mut rank: i8 = rank0 + dr;
        let mut file: i8 = file0 + df;
        let mut out = marks;
        let mut open = true;
        let ghost mut steps: int = 1;
        let ghost mut blocker: int = -1;
        while open && 0 <= rank && rank < 8 && 0 <= file && file < 8
            invariant
                from < 64,
                rank0 == from / 8,
                file0 == from % 8,
                -1 <= dr <= 1,
                -1 <= df <= 1,
                dr != 0 || df != 0,
                self@.wf(),
                1 <= steps <= 8,
                -1 <= rank <= 8,
                -1 <= file <= 8,
                rank - rank0 == (if dr == 0 { 0 } else if dr == 1 { steps } else { -steps }),
                file - file0 == (if df == 0 { 0 } else if df == 1 { steps } else { -steps }),
                open ==> forall|mid: int|
                    #![trigger along(from as int, mid, dr as int, df as int)]
                    on_board(mid) && along(from as int, mid, dr as int, df as int) && distance(
                        from as int,
                        mid,
                    ) < steps ==> self@.vacant(mid),
                !open ==> on_board(blocker) && along(from as int, blocker, dr as int, df as int)
                    && !self@.vacant(blocker) && self@.clear_between(from as int, blocker)
                    && distance(from as int, blocker) < steps,
                forall|d: int|
                    #![trigger out@[d]]
                    0 <= d < 64 ==> out@[d] == (marks@[d] || (along(
                        from as int,
                        d,
                        dr as int,
                        df as int,
                    ) && distance(from as int, d) < steps && self@.clear_between(from as int, d)
                        && !self@.holds(d, white))),
            decreases 9 - steps + (if open { 1int } else { 0int }),
        {
            let target: u8 = (rank * 8 + file) as u8;
            proof {
                lemma_square(rank as int, file as int);
                assert(along(from as int, target as int, dr as int, df as int));
                assert(distance(from as int, target as int) == steps);
                assert forall|d: int|
                    on_board(d) && along(from as int, d, dr as int, df as int) && distance(
                        from as int,
                        d,
                    ) == steps implies d == target by {
                    lemma_square_unique(d, target as int);
                }
                assert forall|mid: int| #[trigger]
                    between(from as int, mid, target as int) implies self@.vacant(mid) by {
                    assert(along(from as int, mid, dr as int, df as int));
                }
            }
            match self.piece_at(target) {
                Some(piece) => {
                    if piece.white != white {
                        out[target as usize] = true;
                    }
                    open = false;
                    proof {
                        blocker = target as int;
                    }
                },
                None => {
                    out[target as usize] = true;
                },
            }
            rank = rank + dr;
            file = file + df;
            proof {
                steps = steps + 1;
            }
        }
        proof {
            assert forall|d: int| 0 <= d < 64 implies out@[d] == (marks@[d] || (along(
                from as int,
                d,
                dr as int,
                df as int,
            ) && self@.clear_between(from as int, d) && !self@.holds(d, white))) by {
                if along(from as int, d, dr as int, df as int) && distance(from as int, d)
                    >= steps {
                    assert(!open);
                    assert(between(from as int, blocker, d));
                }
            }
        }
        out
    }

    /// The squares that a bishop, rook or queen of the given colour on `from`
    /// reaches by sliding.
    fn slide_marks(&self, from: u8, kind: PieceKind, white: bool) -> (r: [bool; 64])
        requires
            from < 64,
        ensures
            forall|d: int|
                #![trigger r@[d]]
                0 <= d < 64 ==> r@[d] == (self@.slides(kind, from as int, d) && !self@.holds(
                    d,
                    white,
                )),
    {
        let mut out = [false;64];
        let diagonals = match kind {
            PieceKind::Bishop | PieceKind::Queen => true,
            _ => false,
        };
        let straights = match kind {
            PieceKind::Rook | PieceKind::Queen => true,
            _ => false,
        };
        if diagonals {
            out = self.cast_ray(out, from, -1, -1, white);
            out = self.cast_ray(out, from, -1, 1, white);
            out = self.cast_ray(out, from, 1, -1, white);
            out = self.cast_ray(out, from, 1, 1, white);
        }
        if straights {
            out = self.cast_ray(out, from, -1, 0, white);
            out = self.cast_ray(out, from, 1, 0, white);
            out = self.cast_ray(out, from, 0, -1, white);
            out = self.cast_ray(out, from, 0, 1, white);
        }
        out
    }

    /// Adds to `marks` the squares to which a king of the given colour on
    /// `from` may castle.
    fn mark_castling(&self, marks: [bool; 64], from: u8, white: bool, danger: &[bool; 64]) -> (r:
        [bool; 64])
        requires
            from < 64,
        ensures
            forall|d: int|
                #![trigger r@[d]]
                0 <= d < 64 ==> r@[d] == (marks@[d] || self@.castles(
                    white,
                    from as int,
                    d,
                    marked(danger@),
                )),
    {
        let mut out = marks;
        let home: u8 = if white {
            4
        } else {
            60
        };
        if from == home && !danger[home as usize] {
            let can_oo = if white {
                self.white_can_oo()
            } else {
                self.black_can_oo()
            };
            let can_ooo = if white {
                self.white_can_ooo()
            } else {
                self.black_can_ooo()
            };
            if can_ooo && self.piece_at(home - 3).is_none() && self.piece_at(home - 2).is_none()
                && self.piece_at(home - 1).is_none() && !danger[(home - 2) as usize] && !danger[(
            home - 1) as usize] {
                out[(home - 2) as usize] = true;
            }
            if can_oo && self.piece_at(home + 1).is_none() && self.piece_at(home + 2).is_none()
                && !danger[(home + 1) as usize] && !danger[(home + 2) as usize] {
                out[(home + 2) as usize] = true;
            }
        }
        out
    }

    /// The squares to which the piece on `from` may move by its pattern of
    /// movement, where a king avoids the squares marked in `danger`. No
    /// square is marked if `from` is empty.
    pub(crate) fn pseudo_marks(&self, from: u8, danger: &[bool; 64]) -> (r: [bool; 64])
        requires
            from < 64,
        ensures
            forall|d: int|
                #![trigger r@[d]]
                0 <= d < 64 ==> r@[d] == self@.pseudo_legal_given(from as int, d, marked(danger@)),
    {
        match self.piece_at(from) {
            None => [false;64],
            Some(piece) => match piece.kind {
                PieceKind::Pawn => self.pawn_marks(from, piece.white),
                PieceKind::Knight => self.knight_marks(from, piece.white),
                PieceKind::King => {
                    let steps = self.king_step_marks(from, piece.white, danger);
                    self.mark_castling(steps, from, piece.white, danger)
                },
                _ => self.slide_marks(from, piece.kind, piece.white),
            },
        }
    }

    /// The attack set: the squares to which the pieces of the side that is
    /// not to move could move, a pawn's advances left out.
    pub(crate) fn attack_marks(&self) -> (r: [bool; 64])
        ensures
            forall|d: int| #![trigger r@[d]] 0 <= d < 64 ==> r@[d] == self@.attacked(d),
            marked(r@) == self@.attacked_set(),
    {
        let calm = [false;64];
        assert(marked(calm@) =~= Set::<int>::empty());
        let mover = self.white_to_play();
        let mut out = [false;64];
        let mut from: u8 = 0;
        while from < 64
            invariant
                from <= 64,
                mover == self@.white_to_play,
                marked(calm@) == Set::<int>::empty(),
                forall|d: int|
                    #![trigger out@[d]]
                    0 <= d < 64 ==> out@[d] == (exists|f: int|
                        0 <= f < from && #[trigger] self@.attacks(f, d)),
            decreases 64 - from,
        {
            match self.piece_at(from) {
                Some(piece) => {
                    if piece.white != mover {
                        let reach = self.pseudo_marks(from, &calm);
                        let pawn = match piece.kind {
                            PieceKind::Pawn => true,
                            _ => false,
                        };
                        let ghost before = out;
                        let mut to: u8 = 0;
                        while to < 64
                            invariant
                                to <= 64,
                                from < 64,
                                forall|d: int|
                                    #![trigger out@[d]]
                                    0 <= d < 64 ==> out@[d] == (before@[d] || (d < to && reach@[d]
                                        && !(pawn && file_of(d) == file_of(from as int)))),
                            decreases 64 - to,
                        {
                            if reach[to as usize] && !(pawn && to % 8 == from % 8) {
                                out[to as usize] = true;
                            }
                            to = to + 1;
                        }
                        assert forall|d: int| 0 <= d < 64 implies out@[d] == (before@[d]
                            || self@.attacks(from as int, d)) by {
                            assert(reach@[d] == self@.pseudo_legal_given(
                                from as int,
                                d,
                                Set::empty(),
                            ));
                        }
                    }
                },
                None => {},
            }
            from = from + 1;
        }
        assert(marked(out@) =~= self@.attacked_set());
        out
    }

    /// The attack set as a list: the squares attacked by the side that is not
    /// to move, in ascending order.
    pub fn checked_squares(&self) -> (r: Vec<u8>)
        ensures
            lists(r@, self@.attacked_set()),
    {
        let marks = self.attack_marks();
        squares_of(&marks)
    }

    /// The pseudo-legal moves of the piece on `square`, in ascending order:
    /// where it may go by its pattern of movement, whether or not that
    /// leaves its own king attacked. A king of the side to move avoids the
    /// attack set. An empty square, or one off the board, has none.
    pub fn pseudo_legal_moves(&self, square: u8) -> (r: Vec<u8>)
        ensures
            lists(r@, Set::new(|d: int| self@.pseudo_legal(square as int, d))),
    {
        if square >= 64 {
            return Vec::new();
        }
        let danger = self.danger_marks(square);
        let marks = self.pseudo_marks(square, &danger);
        let r = squares_of(&marks);
        r
    }

    /// The squares that the piece on `from` has to avoid as a king: the
    /// attack set for a piece of the side to move, and none otherwise.
    pub(crate) fn danger_marks(&self, from: u8) -> (r: [bool; 64])
        requires
            from < 64,
        ensures
            marked(r@) == self@.danger_for(from as int),
    {
        let own = match self.piece_at(from) {
            Some(piece) => piece.white == self.white_to_play(),
            None => false,
        };
        if own {
            self.attack_marks()
        } else {
            let calm = [false;64];
            assert(marked(calm@) =~= Set::<int>::empty());
            calm
        }
    }
}

/// The marked squares as a list, in ascending order.
pub(crate) fn squares_of(marks: &[bool; 64]) -> (r: Vec<u8>)
    ensures
        lists(r@, marked(marks@)),
{
    let mut out: Vec<u8> = Vec::new();
    let mut sq: u8 = 0;
    while sq < 64
        invariant
            sq <= 64,
            ascending(out@),
            forall|i: int| 0 <= i < out@.len() ==> out@[i] < sq,
            forall|d: u8| #[trigger] out@.contains(d) <==> d < sq && marks@[d as int],
        decreases 64 - sq,
    {
        if marks[sq as usize] {
            let ghost before = out@;
            out.push(sq);
            assert forall|d: u8| #[trigger] out@.contains(d) <==> d < sq + 1 && marks@[d as int] by {
                if out@.contains(d) {
                    let i = choose|i: int| 0 <= i < out@.len() && out@[i] == d;
                    if i < before.len() {
                        assert(before[i] == d);
                        assert(before.contains(d));
                    }
                }
                if d < sq + 1 && marks@[d as int] {
                    if d == sq {
                        assert(out@[out@.len() - 1] == d);
                    } else {
                        assert(before.contains(d));
                        let i = choose|i: int| 0 <= i < before.len() && before[i] == d;
                        assert(out@[i] == d);
                    }
                }
            }
        }
        sq = sq + 1;
    }
    out
}


} // verus!
