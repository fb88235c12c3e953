//! Laws of the rules: what holds of every position and every move.

use vstd::prelude::*;
use crate::movegen::{ascending, lists};
use crate::piece::{Piece, PieceKind};
use crate::rules::{
    file_of, forward, is_double_step, king_home, last_rank, on_board, rank_of, Position, Status,
};

verus! {

/// An ascending list is determined by its members.
pub proof fn lemma_lists_unique(first: Seq<u8>, second: Seq<u8>, set: Set<int>)
    requires
        lists(first, set),
        lists(second, set),
    ensures
        first == second,
    decreases first.len(),
{
    if first.len() == 0 {
        if second.len() > 0 {
            assert(second.contains(second[0]));
            assert(first.contains(second[0]));
        }
    } else {
        let top = first.last();
        assert(first.contains(top));
        assert(second.contains(top));
        let at = choose|i: int| 0 <= i < second.len() && second[i] == top;
        if at < second.len() - 1 {
            let more = second.last();
            assert(second.contains(more));
            assert(first.contains(more));
        }
        let rest = set.remove(top as int);
        assert(lists(first.drop_last(), rest)) by {
            lemma_drop_last_lists(first, set);
        }
        assert(lists(second.drop_last(), rest)) by {
            lemma_drop_last_lists(second, set);
        }
        lemma_lists_unique(first.drop_last(), second.drop_last(), rest);
        assert(first =~= first.drop_last().push(top));
    }
}

/// Without its last and greatest member, an ascending list lists the rest of the set.
proof fn lemma_drop_last_lists(list: Seq<u8>, set: Set<int>)
    requires
        list.len() > 0,
        lists(list, set),
    ensures
        lists(list.drop_last(), set.remove(list.last() as int)),
{
    let front = list.drop_last();
    let top = list.last();
    assert forall|d: u8| #[trigger] front.contains(d) <==> set.remove(top as int).contains(
        d as int,
    ) by {
        if front.contains(d) {
            assert(list.contains(d));
        }
        if set.remove(top as int).contains(d as int) {
            assert(list.contains(d));
            let i = choose|i: int| 0 <= i < list.len() && list[i] == d;
            assert(front[i] == d);
        }
    }
}

/// Asking twice for the legal moves of a square gives the same list: any
/// two results of `legal_moves` for one position and one square are equal.
pub proof fn lemma_legal_moves_idempotent(
    p: Position,
    square: int,
    first: Seq<u8>,
    second: Seq<u8>,
)
    requires
        lists(first, Set::new(|d: int| p.legal(square, d))),
        lists(second, Set::new(|d: int| p.legal(square, d))),
    ensures
        first == second,
{
    lemma_lists_unique(first, second, Set::new(|d: int| p.legal(square, d)));
}

/// A legal move is a pseudo-legal move of a piece on the board to a square
/// on the board, and if it needed a trial it does not leave the mover in check.
pub proof fn lemma_legal_move(p: Position, from: int, to: int)
    requires
        p.wf(),
        p.legal(from, to),
    ensures
        on_board(from),
        on_board(to),
        from != to,
        p.cells[from] is Some,
        !p.holds(to, (p.cells[from]->0).white),
        p.sound_move(from, to),
        p.needs_trial(from) ==> !p.after_move(from, to).in_check(),
{
}

/// A move empties the source square and puts the piece on the destination,
/// a pawn that reaches its last rank as a queen. Every other cell stays as
/// it was, but for the square behind the destination of a pawn and the rook
/// squares beside a king that leaves its home square.
pub proof fn lemma_move_places_piece(p: Position, from: int, to: int)
    requires
        p.wf(),
        p.legal(from, to),
    ensures
        p.moved(from, to).cells.len() == 64,
        p.moved(from, to).cells[from] is None,
        p.moved(from, to).cells[to] == Some(
            if (p.cells[from]->0).kind == PieceKind::Pawn && rank_of(to) == last_rank(
                (p.cells[from]->0).white,
            ) {
                Piece { kind: PieceKind::Queen, white: (p.cells[from]->0).white }
            } else {
                p.cells[from]->0
            },
        ),
        forall|s: int|
            #![trigger p.moved(from, to).cells[s]]
            0 <= s < 64 && s != from && s != to && !((p.cells[from]->0).kind == PieceKind::Pawn
                && s == to - 8 * forward((p.cells[from]->0).white)) && !((p.cells[from]->0).kind
                == PieceKind::King && from == king_home((p.cells[from]->0).white) && (s == from - 4
                || s == from - 1 || s == from + 1 || s == from + 3)) ==> p.moved(from, to).cells[s]
                == p.cells[s],
{
}

/// After a move the en passant target is set exactly if a pawn has made a
/// double step, and it then is the square that the pawn passed over. So a
/// target lasts for one ply.
pub proof fn lemma_en_passant_target(p: Position, from: int, to: int)
    requires
        p.wf(),
        p.legal(from, to),
    ensures
        p.moved(from, to).en_passant is Some <==> (p.cells[from]->0).kind == PieceKind::Pawn
            && is_double_step((p.cells[from]->0).white, from, to),
        p.moved(from, to).en_passant matches Some(e) ==> e == from + 8 * forward(
            (p.cells[from]->0).white,
        ) && e == to - 8 * forward((p.cells[from]->0).white) && p.moved(from, to).cells[e as int]
            is None,
{
}

/// A pawn moves diagonally onto an empty square only if that square is the
/// en passant target.
pub proof fn lemma_en_passant_only_on_target(p: Position, from: int, to: int)
    requires
        p.wf(),
        p.legal(from, to),
        (p.cells[from]->0).kind == PieceKind::Pawn,
        file_of(from) != file_of(to),
        p.vacant(to),
    ensures
        p.en_passant == Some(to as u8),
{
}

/// A pawn that moves onto the en passant target removes what stands one
/// rank behind the target, and lands on the target itself.
pub proof fn lemma_en_passant_capture(p: Position, from: int, to: int)
    requires
        p.wf(),
        p.legal(from, to),
        (p.cells[from]->0).kind == PieceKind::Pawn,
        p.en_passant == Some(to as u8),
    ensures
        p.moved(from, to).cells[to - 8 * forward((p.cells[from]->0).white)] is None,
        p.moved(from, to).cells[from] is None,
        p.moved(from, to).cells[to] == Some(
            if rank_of(to) == last_rank((p.cells[from]->0).white) {
                Piece { kind: PieceKind::Queen, white: (p.cells[from]->0).white }
            } else {
                p.cells[from]->0
            },
        ),
{
}

/// Castling on the king's side is legal only if the right is held, the
/// two squares between king and rook are empty, and the king neither
/// stands on, passes nor reaches an attacked square.
pub proof fn lemma_castling_short_gated(p: Position)
    requires
        p.wf(),
        p.king_at(king_home(p.white_to_play), p.white_to_play),
        p.legal(king_home(p.white_to_play), king_home(p.white_to_play) + 2),
    ensures
        p.can_oo(p.white_to_play),
        p.vacant(king_home(p.white_to_play) + 1),
        p.vacant(king_home(p.white_to_play) + 2),
        !p.attacked(king_home(p.white_to_play)),
        !p.attacked(king_home(p.white_to_play) + 1),
        !p.attacked(king_home(p.white_to_play) + 2),
{
}

/// Castling on the queen's side is legal only if the right is held, the
/// three squares between king and rook are empty, and the king neither
/// stands on, passes nor reaches an attacked square.
pub proof fn lemma_castling_long_gated(p: Position)
    requires
        p.wf(),
        p.king_at(king_home(p.white_to_play), p.white_to_play),
        p.legal(king_home(p.white_to_play), king_home(p.white_to_play) - 2),
    ensures
        p.can_ooo(p.white_to_play),
        p.vacant(king_home(p.white_to_play) - 1),
        p.vacant(king_home(p.white_to_play) - 2),
        p.vacant(king_home(p.white_to_play) - 3),
        !p.attacked(king_home(p.white_to_play)),
        !p.attacked(king_home(p.white_to_play) - 1),
        !p.attacked(king_home(p.white_to_play) - 2),
{
}

/// A king that castles takes the rook along: the rook leaves its corner
/// and stands beside the king on the square that the king passed.
pub proof fn lemma_castling_moves_rook(p: Position, to: int)
    requires
        p.wf(),
        p.king_at(king_home(p.white_to_play), p.white_to_play),
        p.legal(king_home(p.white_to_play), to),
        to == king_home(p.white_to_play) + 2 || to == king_home(p.white_to_play) - 2,
    ensures
        p.moved(king_home(p.white_to_play), to).cells[to] == p.cells[king_home(p.white_to_play)],
        p.moved(king_home(p.white_to_play), to).cells[king_home(p.white_to_play)] is None,
        to == king_home(p.white_to_play) + 2 ==> {
            &&& p.moved(king_home(p.white_to_play), to).cells[to - 1] == p.cells[to + 1]
            &&& p.moved(king_home(p.white_to_play), to).cells[to + 1] is None
        },
        to == king_home(p.white_to_play) - 2 ==> {
            &&& p.moved(king_home(p.white_to_play), to).cells[to + 1] == p.cells[to - 2]
            &&& p.moved(king_home(p.white_to_play), to).cells[to - 2] is None
        },
{
}

/// A castling right that is lost stays lost: no move gives a right back.
pub proof fn lemma_castling_rights_only_fall(p: Position, from: int, to: int)
    requires
        p.wf(),
        p.sound_move(from, to),
    ensures
        p.moved(from, to).white_can_oo ==> p.white_can_oo,
        p.moved(from, to).white_can_ooo ==> p.white_can_ooo,
        p.moved(from, to).black_can_oo ==> p.black_can_oo,
        p.moved(from, to).black_can_ooo ==> p.black_can_ooo,
{
}

/// A king that moves loses both castling rights of its colour, and a rook
/// that leaves its corner loses the right of its colour on that side.
pub proof fn lemma_moving_loses_rights(p: Position, from: int, to: int)
    requires
        p.wf(),
        p.sound_move(from, to),
    ensures
        (p.cells[from]->0).kind == PieceKind::King ==> !p.moved(from, to).can_oo(
            (p.cells[from]->0).white,
        ) && !p.moved(from, to).can_ooo((p.cells[from]->0).white),
        (p.cells[from]->0).kind == PieceKind::Rook && from == king_home((p.cells[from]->0).white)
            + 3 ==> !p.moved(from, to).can_oo((p.cells[from]->0).white),
        (p.cells[from]->0).kind == PieceKind::Rook && from == king_home((p.cells[from]->0).white)
            - 4 ==> !p.moved(from, to).can_ooo((p.cells[from]->0).white),
{
}

/// A move changes no castling right but those that it loses: after it a
/// right is held exactly if it was held before and the piece that moved
/// was neither the king of that colour nor the rook from that corner.
pub proof fn lemma_rights_after_move(p: Position, from: int, to: int)
    requires
        p.wf(),
        p.sound_move(from, to),
    ensures
        p.moved(from, to).white_can_oo == (p.white_can_oo && !(p.cells[from] == Some(
            Piece { kind: PieceKind::King, white: true },
        ) || (p.cells[from] == Some(Piece { kind: PieceKind::Rook, white: true }) && from == 7))),
        p.moved(from, to).white_can_ooo == (p.white_can_ooo && !(p.cells[from] == Some(
            Piece { kind: PieceKind::King, white: true },
        ) || (p.cells[from] == Some(Piece { kind: PieceKind::Rook, white: true }) && from == 0))),
        p.moved(from, to).black_can_oo == (p.black_can_oo && !(p.cells[from] == Some(
            Piece { kind: PieceKind::King, white: false },
        ) || (p.cells[from] == Some(Piece { kind: PieceKind::Rook, white: false }) && from
            == 63))),
        p.moved(from, to).black_can_ooo == (p.black_can_ooo && !(p.cells[from] == Some(
            Piece { kind: PieceKind::King, white: false },
        ) || (p.cells[from] == Some(Piece { kind: PieceKind::Rook, white: false }) && from
            == 56))),
{
}

/// A move passes the turn, leaves the two counters as they are, and sets
/// the status to that of the new position.
pub proof fn lemma_move_bookkeeping(p: Position, from: int, to: int)
    requires
        p.wf(),
        p.sound_move(from, to),
    ensures
        p.moved(from, to).white_to_play == !p.white_to_play,
        p.moved(from, to).halfmove_clock == p.halfmove_clock,
        p.moved(from, to).fullmove_number == p.fullmove_number,
        p.moved(from, to).status == p.moved(from, to).evaluate(),
{
    let q = p.moved(from, to);
    let passed = Position { white_to_play: !p.white_to_play, ..p.after_move(from, to) };
    lemma_status_ignored(passed, q.status);
}

/// The rules do not look at the stored status: a position evaluates the
/// same whatever status it holds.
pub proof fn lemma_status_ignored(p: Position, status: Status)
    ensures
        (Position { status, ..p }).evaluate() == p.evaluate(),
{
    let q = Position { status, ..p };
    lemma_check_ignores_status(p, status);
    assert forall|from: int, to: int| q.legal(from, to) == p.legal(from, to) by {
        lemma_trial_ignores_status(p, status, from, to);
    }
    assert(q.has_king(q.white_to_play) == p.has_king(p.white_to_play)) by {
        lemma_trial_ignores_status(p, status, 0, 0);
    }
}

/// Whether a move is legal does not depend on the stored status.
proof fn lemma_trial_ignores_status(p: Position, status: Status, from: int, to: int)
    ensures
        (Position { status, ..p }).legal(from, to) == p.legal(from, to),
        (Position { status, ..p }).has_king(p.white_to_play) == p.has_king(p.white_to_play),
{
    let q = Position { status, ..p };
    lemma_check_ignores_status(p, status);
    lemma_check_ignores_status(p.after_move(from, to), status);
    assert(q.attacked_set() =~= p.attacked_set()) by {
        assert forall|sq: int| q.attacked(sq) == p.attacked(sq) by {
            lemma_attacked_ignores_status(p, status, sq);
        }
    }
    assert(q.has_king(q.white_to_play) == p.has_king(p.white_to_play)) by {
        if p.has_king(p.white_to_play) {
            let k = choose|k: int| p.king_at(k, p.white_to_play);
            assert(q.king_at(k, q.white_to_play));
        }
        if q.has_king(q.white_to_play) {
            let k = choose|k: int| q.king_at(k, q.white_to_play);
            assert(p.king_at(k, p.white_to_play));
        }
    }
}

/// Whether a square is attacked does not depend on the stored status.
proof fn lemma_attacked_ignores_status(p: Position, status: Status, sq: int)
    ensures
        (Position { status, ..p }).attacked(sq) == p.attacked(sq),
{
    let q = Position { status, ..p };
    if p.attacked(sq) {
        let f = choose|f: int| p.attacks(f, sq);
        assert(q.attacks(f, sq));
    }
    if q.attacked(sq) {
        let f = choose|f: int| q.attacks(f, sq);
        assert(p.attacks(f, sq));
    }
}

/// Whether the side to move is in check does not depend on the stored status.
proof fn lemma_check_ignores_status(p: Position, status: Status)
    ensures
        (Position { status, ..p }).in_check() == p.in_check(),
{
    let q = Position { status, ..p };
    assert forall|t: int| q.king_at(t, p.white_to_play) == p.king_at(t, p.white_to_play) by {}
    if p.in_check() {
        let k = choose|k: int| p.first_king(k, p.white_to_play) && p.attacked(k);
        lemma_attacked_ignores_status(p, status, k);
    }
    if q.in_check() {
        let k = choose|k: int| q.first_king(k, q.white_to_play) && q.attacked(k);
        lemma_attacked_ignores_status(p, status, k);
    }
}

/// A game that is won is checkmate: the loser is to move, is in check, and
/// none of its pieces has a legal move.
pub proof fn lemma_win_is_checkmate(p: Position)
    requires
        p.evaluate() is Win,
    ensures
        p.evaluate() == (Status::Win { white: !p.white_to_play }),
        p.in_check(),
        forall|from: int, to: int|
            on_board(from) && p.holds(from, p.white_to_play) ==> !#[trigger] p.legal(from, to),
{
}

/// A game that is drawn while the side to move has a king is stalemate:
/// that side is not in check, and none of its pieces has a legal move.
pub proof fn lemma_draw_is_stalemate(p: Position)
    requires
        p.evaluate() == Status::Draw,
        p.has_king(p.white_to_play),
    ensures
        !p.in_check(),
        forall|from: int, to: int|
            on_board(from) && p.holds(from, p.white_to_play) ==> !#[trigger] p.legal(from, to),
{
}

} // verus!
