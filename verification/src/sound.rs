//! Sound positions: those whose castling rights and en-passant square are
//! backed by the pieces on the board. On such a position every move the
//! generator gives can be made without a panic and keeps the bitboards and
//! the mailbox in agreement.

use vstd::prelude::*;
use crate::bits::{has_bit, lemma_or_bit, lemma_and_bit, lemma_not_bit, lemma_single_bit, lemma_zero_bits, lemma_bits_of};
use crate::types::{Color, PieceType, Piece, Move, MoveType, piece_of_index, piece_index, lemma_piece_index};
use crate::position::{Position, wf, piece_on, en_passant_victim, move_ok, keeps_agreement, apply_move, lemma_or_range_bits};
use crate::movegen::{
    pseudolegal, pseudolegal_upto, moves_from, quiet_list, capture_list, castle_list, promotions, last_rank,
    square_dist, set_bits, lemma_set_bits_members, moves_spec, attacks_spec, ep_mask, ep_ok,
    can_castle_kingside_spec, can_castle_queenside_spec,
};
use crate::tables::{pawn_attack_table, pawn_attack_rel, rank, file};
use crate::board::{has_king, illegal_spec, king_square, flip};
use crate::tree::step_ok;

verus! {

/// The home square of the king of `c`.
pub open spec fn king_home(c: Color) -> int {
    if c == Color::White {
        4
    } else {
        60
    }
}

/// Every king of colour `c` stands on its home square.
pub open spec fn kings_home(p: Position, c: Color) -> bool {
    forall|s: int|
        0 <= s < 64 && #[trigger] p.mailbox[s] == Some(Piece { piece_type: PieceType::King, color: c })
            ==> s == king_home(c)
}

/// The castling rights are backed by the board: a side that holds a right
/// has its kings on their home square, and its rook stands on the corner of
/// each right it holds.
pub open spec fn castling_sound(p: Position) -> bool {
    let cr = p.castling_rights;
    &&& (cr.white_king_side || cr.white_queen_side) ==> kings_home(p, Color::White)
    &&& (cr.black_king_side || cr.black_queen_side) ==> kings_home(p, Color::Black)
    &&& cr.white_king_side ==> p.mailbox[7] == Some(Piece { piece_type: PieceType::Rook, color: Color::White })
    &&& cr.white_queen_side ==> p.mailbox[0] == Some(Piece { piece_type: PieceType::Rook, color: Color::White })
    &&& cr.black_king_side ==> p.mailbox[63] == Some(Piece { piece_type: PieceType::Rook, color: Color::Black })
    &&& cr.black_queen_side ==> p.mailbox[56] == Some(Piece { piece_type: PieceType::Rook, color: Color::Black })
}

/// The side `c` has at most one king.
pub open spec fn one_king(p: Position, c: Color) -> bool {
    forall|s1: int, s2: int|
        0 <= s1 < 64 && 0 <= s2 < 64 && #[trigger] p.mailbox[s1] == Some(
            Piece { piece_type: PieceType::King, color: c },
        ) && #[trigger] p.mailbox[s2] == Some(Piece { piece_type: PieceType::King, color: c }) ==> s1 == s2
}

/// The en-passant square, if any, is empty, and the enemy pawn that an
/// en-passant capture onto it takes stands on the board.
pub open spec fn en_passant_sound(p: Position) -> bool {
    p.en_passant_square matches Some(e) ==> {
        let v = en_passant_victim(p.color_to_move, e as int);
        &&& p.mailbox[e as int] is None
        &&& 0 <= v < 64
        &&& p.mailbox[v] == Some(Piece { piece_type: PieceType::Pawn, color: p.color_to_move.inverse() })
    }
}

/// A sound position: well formed, each side has exactly one king, the
/// castling rights and the en-passant square are backed by the board, and
/// the side that just moved did not leave its king attacked.
pub open spec fn sound(p: Position) -> bool {
    &&& wf(p)
    &&& has_king(p, Color::White)
    &&& has_king(p, Color::Black)
    &&& one_king(p, Color::White)
    &&& one_king(p, Color::Black)
    &&& castling_sound(p)
    &&& en_passant_sound(p)
    &&& !illegal_spec(p)
}

/// A promotion piece the generator gives: a knight, bishop, rook or queen.
pub open spec fn promotion_piece(pt: PieceType) -> bool {
    pt == PieceType::Knight || pt == PieceType::Bishop || pt == PieceType::Rook || pt == PieceType::Queen
}

/// What the move generator gives: a move of a piece of the side to move,
/// of a kind that fits the piece and its targets.
pub open spec fn generated(p: Position, mv: Move) -> bool {
    let from = mv.from as int;
    let to = mv.to as int;
    let piece = piece_on(p, from);
    let quiet = has_bit(moves_spec(p, piece.piece_type, piece.color, from), mv.to as u64);
    let attack = has_bit(attacks_spec(p, piece.piece_type, piece.color, from), mv.to as u64);
    let pawn = piece.piece_type == PieceType::Pawn;
    &&& 0 <= from < 64
    &&& p.mailbox[from] is Some
    &&& piece.color == p.color_to_move
    &&& match mv.move_type {
        MoveType::CastleKingside => piece.piece_type == PieceType::King && to == from + 2
            && can_castle_kingside_spec(p),
        MoveType::CastleQueenside => piece.piece_type == PieceType::King && mv.to == (mv.from - 2) as u8
            && can_castle_queenside_spec(p),
        MoveType::Quiet => to < 64 && quiet,
        MoveType::Capture => to < 64 && attack && !(pawn && has_bit(ep_mask(p), mv.to as u64) && (
        square_dist(mv.to, mv.from) == 7 || square_dist(mv.to, mv.from) == 9)),
        MoveType::EnPassant => to < 64 && attack && pawn && has_bit(ep_mask(p), mv.to as u64),
        MoveType::Promotion(pt) => to < 64 && pawn && promotion_piece(pt) && (quiet || attack),
        MoveType::Unknown => false,
    }
}

/// The kind of a move to an empty square: quiet, or a pawn's promotion.
pub open spec fn quiet_kind(piece: Piece, kind: MoveType) -> bool {
    match kind {
        MoveType::Quiet => true,
        MoveType::Promotion(pt) => piece.piece_type == PieceType::Pawn && promotion_piece(pt),
        _ => false,
    }
}

/// The occupied squares of a well-formed position are those of the mailbox.
proof fn lemma_occupied_bits(p: Position, t: u64)
    requires
        wf(p),
        t < 64,
    ensures
        has_bit(p.occupied.white, t) <==> (p.mailbox[t as int] is Some && p.mailbox[t as int]->0.color
            == Color::White),
        has_bit(p.occupied.black, t) <==> (p.mailbox[t as int] is Some && p.mailbox[t as int]->0.color
            == Color::Black),
        has_bit(p.occupied.all, t) <==> p.mailbox[t as int] is Some,
{
    lemma_or_range_bits(p.bitboards, 0, 6, t);
    lemma_or_range_bits(p.bitboards, 6, 12, t);
    lemma_or_bit(p.occupied.white, p.occupied.black, t);
    if let Some(q) = p.mailbox[t as int] {
        lemma_piece_index(q);
        assert(has_bit(p.bitboards[piece_index(q)], t));
    }
    if exists|i: int| 0 <= i < 6 && #[trigger] has_bit(p.bitboards[i], t) {
        let i = choose|i: int| 0 <= i < 6 && #[trigger] has_bit(p.bitboards[i], t);
        assert(p.mailbox[t as int] == Some(piece_of_index(i)));
    }
    if exists|i: int| 6 <= i < 12 && #[trigger] has_bit(p.bitboards[i], t) {
        let i = choose|i: int| 6 <= i < 12 && #[trigger] has_bit(p.bitboards[i], t);
        assert(p.mailbox[t as int] == Some(piece_of_index(i)));
    }
}

/// A square a piece moves to without capturing is empty.
proof fn lemma_quiet_target_empty(p: Position, pt: PieceType, c: Color, s: int, t: u64)
    requires
        wf(p),
        t < 64,
        has_bit(moves_spec(p, pt, c, s), t),
    ensures
        p.mailbox[t as int] is None,
{
    lemma_occupied_bits(p, t);
    lemma_not_bit(p.occupied.all, t);
    let empty = !p.occupied.all;
    let all = p.occupied.all;
    match pt {
        PieceType::Pawn => {
            let single = crate::tables::single_push_table(c.index() as int, s) & empty;
            let double = if single != 0 {
                crate::tables::double_push_table(c.index() as int, s) & empty
            } else {
                0u64
            };
            lemma_or_bit(single, double, t);
            lemma_and_bit(crate::tables::single_push_table(c.index() as int, s), empty, t);
            if single != 0 {
                lemma_and_bit(crate::tables::double_push_table(c.index() as int, s), empty, t);
            } else {
                lemma_zero_bits(t);
            }
        },
        PieceType::Knight => lemma_and_bit(crate::tables::knight_table(s), empty, t),
        PieceType::Bishop => lemma_and_bit(crate::slider::bishop_table(s, all), empty, t),
        PieceType::Rook => lemma_and_bit(crate::slider::rook_table(s, all), empty, t),
        PieceType::Queen => lemma_and_bit(
            crate::slider::rook_table(s, all) | crate::slider::bishop_table(s, all),
            empty,
            t,
        ),
        PieceType::King => lemma_and_bit(crate::tables::king_table(s), empty, t),
    }
}

/// A square a piece attacks holds an enemy piece, or is the en-passant
/// square for a pawn; a pawn attacks only the squares 7 or 9 away.
proof fn lemma_attack_target(p: Position, pt: PieceType, c: Color, s: int, t: u64)
    requires
        wf(p),
        0 <= s < 64,
        t < 64,
        has_bit(attacks_spec(p, pt, c, s), t),
    ensures
        (p.mailbox[t as int] is Some && p.mailbox[t as int]->0.color != c) || (pt == PieceType::Pawn
            && has_bit(ep_mask(p), t)),
        pt == PieceType::Pawn ==> (square_dist(t as u8, s as u8) == 7 || square_dist(t as u8, s as u8)
            == 9),
{
    lemma_occupied_bits(p, t);
    let enemy = p.occupied.enemy(&c);
    let all = p.occupied.all;
    match pt {
        PieceType::Pawn => {
            let table = pawn_attack_table(c.index() as int, s);
            lemma_and_bit(table, enemy | ep_mask(p), t);
            lemma_or_bit(enemy, ep_mask(p), t);
            lemma_bits_of(|u: u64| pawn_attack_rel(c.index() as int, s, u as int), t);
            assert(pawn_attack_rel(c.index() as int, s, t as int));
            let ti = t as int;
            assert(ti == rank(ti) * 8 + file(ti));
            assert(s == rank(s) * 8 + file(s));
        },
        PieceType::Knight => lemma_and_bit(crate::tables::knight_table(s), enemy, t),
        PieceType::Bishop => lemma_and_bit(crate::slider::bishop_table(s, all), enemy, t),
        PieceType::Rook => lemma_and_bit(crate::slider::rook_table(s, all), enemy, t),
        PieceType::Queen => lemma_and_bit(
            crate::slider::rook_table(s, all) | crate::slider::bishop_table(s, all),
            enemy,
            t,
        ),
        PieceType::King => lemma_and_bit(crate::tables::king_table(s), enemy, t),
    }
}

/// A piece of the side to move that attacks an enemy piece on `t` makes
/// `t` attacked in the position with the other side to move.
proof fn lemma_attack_is_seen(p: Position, from: int, t: u64)
    requires
        wf(p),
        0 <= from < 64,
        t < 64,
        p.mailbox[from] is Some,
        p.mailbox[from]->0.color == p.color_to_move,
        has_bit(
            attacks_spec(p, p.mailbox[from]->0.piece_type, p.color_to_move, from),
            t,
        ),
        p.mailbox[t as int] is Some,
        p.mailbox[t as int]->0.color != p.color_to_move,
    ensures
        crate::movegen::attacked(flip(p), t as int),
{
    let piece = p.mailbox[from]->0;
    let c = p.color_to_move;
    let o = c.inverse();
    let fp = flip(p);
    let ti = t as int;
    let f = from as u64;
    let all = p.occupied.all;
    lemma_occupied_bits(p, t);
    lemma_occupied_bits(p, f);
    lemma_piece_index(piece);
    assert(has_bit(p.bitboards[crate::movegen::bb_index(piece.piece_type, c)], f));
    let mine = fp.occupied.enemy(&o);
    assert(has_bit(mine, f));
    let enemy = p.occupied.enemy(&c);
    match piece.piece_type {
        PieceType::Pawn => {
            lemma_and_bit(pawn_attack_table(c.index() as int, from), enemy | ep_mask(p), t);
            lemma_bits_of(|u: u64| pawn_attack_rel(c.index() as int, from, u as int), t);
            lemma_bits_of(|u: u64| pawn_attack_rel(o.index() as int, ti, u as int), f);
            lemma_and_bit(pawn_attack_table(o.index() as int, ti), mine | ep_mask(fp), f);
            lemma_or_bit(mine, ep_mask(fp), f);
        },
        PieceType::Knight => {
            lemma_and_bit(crate::tables::knight_table(from), enemy, t);
            lemma_bits_of(|u: u64| crate::tables::knight_rel(from, u as int), t);
            lemma_bits_of(|u: u64| crate::tables::knight_rel(ti, u as int), f);
            lemma_and_bit(crate::tables::knight_table(ti), mine, f);
        },
        PieceType::King => {
            lemma_and_bit(crate::tables::king_table(from), enemy, t);
            lemma_bits_of(|u: u64| crate::tables::king_rel(from, u as int), t);
            lemma_bits_of(|u: u64| crate::tables::king_rel(ti, u as int), f);
            lemma_and_bit(crate::tables::king_table(ti), mine, f);
        },
        PieceType::Bishop => {
            lemma_and_bit(crate::slider::bishop_table(from, all), enemy, t);
            lemma_bits_of(|u: u64| crate::slider::slider_rel(from, all, true, u as int), t);
            crate::slider::lemma_slider_symmetric(from, all, true, ti);
            lemma_bits_of(|u: u64| crate::slider::slider_rel(ti, all, true, u as int), f);
            lemma_and_bit(crate::slider::bishop_table(ti, all), mine, f);
        },
        PieceType::Rook => {
            lemma_and_bit(crate::slider::rook_table(from, all), enemy, t);
            lemma_bits_of(|u: u64| crate::slider::slider_rel(from, all, false, u as int), t);
            crate::slider::lemma_slider_symmetric(from, all, false, ti);
            lemma_bits_of(|u: u64| crate::slider::slider_rel(ti, all, false, u as int), f);
            lemma_and_bit(crate::slider::rook_table(ti, all), mine, f);
        },
        PieceType::Queen => {
            let r = crate::slider::rook_table(from, all);
            let b = crate::slider::bishop_table(from, all);
            lemma_and_bit(r | b, enemy, t);
            lemma_or_bit(r, b, t);
            lemma_bits_of(|u: u64| crate::slider::slider_rel(from, all, false, u as int), t);
            lemma_bits_of(|u: u64| crate::slider::slider_rel(from, all, true, u as int), t);
            lemma_bits_of(|u: u64| crate::slider::slider_rel(ti, all, false, u as int), f);
            lemma_bits_of(|u: u64| crate::slider::slider_rel(ti, all, true, u as int), f);
            if has_bit(r, t) {
                crate::slider::lemma_slider_symmetric(from, all, false, ti);
            } else {
                crate::slider::lemma_slider_symmetric(from, all, true, ti);
            }
            let r2 = crate::slider::rook_table(ti, all);
            let b2 = crate::slider::bishop_table(ti, all);
            lemma_or_bit(r2, b2, f);
            lemma_and_bit(r2 | b2, mine, f);
        },
    }
    let term = |pt: PieceType| attacks_spec(fp, pt, o, ti) & fp.bitboards[crate::movegen::bb_index(pt, c)];
    let own = term(piece.piece_type);
    lemma_and_bit(attacks_spec(fp, piece.piece_type, o, ti), fp.bitboards[crate::movegen::bb_index(piece.piece_type, c)], f);
    assert(has_bit(own, f));
    let t0 = term(PieceType::Pawn);
    let t1 = term(PieceType::Knight);
    let t2 = term(PieceType::Bishop);
    let t3 = term(PieceType::Rook);
    let t4 = term(PieceType::Queen);
    let t5 = term(PieceType::King);
    lemma_or_bit(t0, t1, f);
    lemma_or_bit(t0 | t1, t2, f);
    lemma_or_bit(t0 | t1 | t2, t3, f);
    lemma_or_bit(t0 | t1 | t2 | t3, t4, f);
    lemma_or_bit(t0 | t1 | t2 | t3 | t4, t5, f);
    let all_terms = t0 | t1 | t2 | t3 | t4 | t5;
    assert(has_bit(all_terms, f));
    if all_terms == 0 {
        lemma_zero_bits(f);
    }
}

/// A square of the en-passant mask is the en-passant square.
proof fn lemma_ep_mask_bit(p: Position, t: u64)
    requires
        wf(p),
        t < 64,
        has_bit(ep_mask(p), t),
    ensures
        p.en_passant_square == Some(t as u8),
{
    match p.en_passant_square {
        Some(e) => lemma_single_bit(e as u64, t),
        None => lemma_zero_bits(t),
    }
}

proof fn lemma_quiet_list(piece: Piece, from: u8, targets: Seq<u8>)
    ensures
        forall|i: int|
            0 <= i < quiet_list(piece, from, targets).len() ==> {
                let mv = #[trigger] quiet_list(piece, from, targets)[i];
                &&& mv.from == from
                &&& targets.contains(mv.to)
                &&& quiet_kind(piece, mv.move_type)
            },
    decreases targets.len(),
{
    if targets.len() > 0 {
        let to = targets[0];
        let rest = targets.drop_first();
        lemma_quiet_list(piece, from, rest);
        let head = if piece.piece_type == PieceType::Pawn && last_rank(to) {
            promotions(from, to)
        } else {
            seq![Move { from, to, move_type: MoveType::Quiet }]
        };
        let ql = quiet_list(piece, from, targets);
        assert(ql == head + quiet_list(piece, from, rest));
        assert forall|i: int| 0 <= i < ql.len() implies {
            let mv = #[trigger] ql[i];
            &&& mv.from == from
            &&& targets.contains(mv.to)
            &&& quiet_kind(piece, mv.move_type)
        } by {
            if i < head.len() {
                assert(targets[0] == to);
            } else {
                let mv = quiet_list(piece, from, rest)[i - head.len()];
                assert(ql[i] == mv);
                let j = choose|j: int| 0 <= j < rest.len() && rest[j] == mv.to;
                assert(targets[j + 1] == mv.to);
            }
        }
    }
}

proof fn lemma_capture_list(ep: u64, piece: Piece, from: u8, targets: Seq<u8>)
    ensures
        forall|i: int|
            0 <= i < capture_list(ep, piece, from, targets).len() ==> {
                let mv = #[trigger] capture_list(ep, piece, from, targets)[i];
                let pawn = piece.piece_type == PieceType::Pawn;
                &&& mv.from == from
                &&& targets.contains(mv.to)
                &&& match mv.move_type {
                    MoveType::Capture => !(pawn && has_bit(ep, mv.to as u64) && (square_dist(mv.to, from) == 7
                        || square_dist(mv.to, from) == 9)),
                    MoveType::EnPassant => pawn && has_bit(ep, mv.to as u64),
                    MoveType::Promotion(pt) => pawn && promotion_piece(pt),
                    _ => false,
                }
            },
    decreases targets.len(),
{
    if targets.len() > 0 {
        let to = targets[0];
        let rest = targets.drop_first();
        lemma_capture_list(ep, piece, from, rest);
        let head = if piece.piece_type == PieceType::Pawn && last_rank(to) {
            promotions(from, to)
        } else if piece.piece_type == PieceType::Pawn && has_bit(ep, to as u64) && (square_dist(to, from)
            == 7 || square_dist(to, from) == 9) {
            seq![Move { from, to, move_type: MoveType::EnPassant }]
        } else {
            seq![Move { from, to, move_type: MoveType::Capture }]
        };
        let cl = capture_list(ep, piece, from, targets);
        assert(cl == head + capture_list(ep, piece, from, rest));
        assert forall|i: int| 0 <= i < cl.len() implies {
            let mv = #[trigger] cl[i];
            let pawn = piece.piece_type == PieceType::Pawn;
            &&& mv.from == from
            &&& targets.contains(mv.to)
            &&& match mv.move_type {
                MoveType::Capture => !(pawn && has_bit(ep, mv.to as u64) && (square_dist(mv.to, from) == 7
                    || square_dist(mv.to, from) == 9)),
                MoveType::EnPassant => pawn && has_bit(ep, mv.to as u64),
                MoveType::Promotion(pt) => pawn && promotion_piece(pt),
                _ => false,
            }
        } by {
            if i < head.len() {
                assert(targets[0] == to);
            } else {
                let mv = capture_list(ep, piece, from, rest)[i - head.len()];
                assert(cl[i] == mv);
                let j = choose|j: int| 0 <= j < rest.len() && rest[j] == mv.to;
                assert(targets[j + 1] == mv.to);
            }
        }
    }
}

proof fn lemma_moves_from(p: Position, from: u8)
    requires
        from < 64,
        p.mailbox.len() == 64,
    ensures
        forall|i: int| 0 <= i < moves_from(p, from).len() ==> generated(p, #[trigger] moves_from(p, from)[i]),
{
    let ms = moves_from(p, from);
    if let Some(piece) = p.mailbox[from as int] {
        if piece.color == p.color_to_move {
            let castles = if piece.piece_type == PieceType::King {
                castle_list(p, from)
            } else {
                Seq::empty()
            };
            let quiet_targets = set_bits(moves_spec(p, piece.piece_type, piece.color, from as int));
            let attack_targets = set_bits(attacks_spec(p, piece.piece_type, piece.color, from as int));
            let quiets = quiet_list(piece, from, quiet_targets);
            let captures = capture_list(ep_mask(p), piece, from, attack_targets);
            assert(ms == castles + quiets + captures);
            lemma_quiet_list(piece, from, quiet_targets);
            lemma_capture_list(ep_mask(p), piece, from, attack_targets);
            lemma_set_bits_members(moves_spec(p, piece.piece_type, piece.color, from as int));
            lemma_set_bits_members(attacks_spec(p, piece.piece_type, piece.color, from as int));
            assert forall|i: int| 0 <= i < ms.len() implies generated(p, #[trigger] ms[i]) by {
                assert(piece_on(p, from as int) == piece);
                if i < castles.len() {
                    let ks = if can_castle_kingside_spec(p) {
                        seq![Move { from, to: (from + 2) as u8, move_type: MoveType::CastleKingside }]
                    } else {
                        Seq::empty()
                    };
                    let qs = if can_castle_queenside_spec(p) {
                        seq![Move { from, to: (from - 2) as u8, move_type: MoveType::CastleQueenside }]
                    } else {
                        Seq::empty()
                    };
                    assert(castles == ks + qs);
                    assert(ms[i] == castles[i]);
                    if i < ks.len() {
                        assert(castles[i] == ks[i]);
                    } else {
                        assert(castles[i] == qs[i - ks.len()]);
                    }
                } else if i < castles.len() + quiets.len() {
                    let mv = quiets[i - castles.len()];
                    assert(ms[i] == mv);
                    assert(mv.from == from);
                    let j = choose|j: int| 0 <= j < quiet_targets.len() && quiet_targets[j] == mv.to;
                    assert(quiet_targets[j] < 64);
                    let t = mv.to as u64;
                    assert(t as u8 == mv.to);
                    assert(quiet_targets.contains(t as u8));
                    assert(has_bit(moves_spec(p, piece.piece_type, piece.color, from as int), t));
                } else {
                    let mv = captures[i - castles.len() - quiets.len()];
                    assert(ms[i] == mv);
                    assert(mv.from == from);
                    let j = choose|j: int| 0 <= j < attack_targets.len() && attack_targets[j] == mv.to;
                    assert(attack_targets[j] < 64);
                    let t = mv.to as u64;
                    assert(t as u8 == mv.to);
                    assert(attack_targets.contains(t as u8));
                    assert(has_bit(attacks_spec(p, piece.piece_type, piece.color, from as int), t));
                }
            }
        }
    }
}

proof fn lemma_pseudolegal_upto(p: Position, n: nat)
    requires
        n <= 64,
        p.mailbox.len() == 64,
    ensures
        forall|i: int|
            0 <= i < pseudolegal_upto(p, n).len() ==> generated(p, #[trigger] pseudolegal_upto(p, n)[i]),
    decreases n,
{
    if n > 0 {
        lemma_pseudolegal_upto(p, (n - 1) as nat);
        lemma_moves_from(p, (n - 1) as u8);
        let a = pseudolegal_upto(p, (n - 1) as nat);
        let b = moves_from(p, (n - 1) as u8);
        assert forall|i: int| 0 <= i < (a + b).len() implies generated(p, #[trigger] (a + b)[i]) by {
            if i < a.len() {
                assert((a + b)[i] == a[i]);
            } else {
                assert((a + b)[i] == b[i - a.len()]);
            }
        }
    }
}

/// Every move the generator gives is a move of a piece of the side to move,
/// of a kind that fits the piece and its targets.
pub proof fn lemma_pseudolegal_generated(p: Position)
    requires
        p.mailbox.len() == 64,
    ensures
        forall|i: int| 0 <= i < pseudolegal(p).len() ==> generated(p, #[trigger] pseudolegal(p)[i]),
{
    lemma_pseudolegal_upto(p, 64);
}

/// On a sound position, a generated move can be made, and it puts no piece
/// on a square that holds another.
pub proof fn lemma_generated_move_ok(p: Position, mv: Move)
    requires
        sound(p),
        generated(p, mv),
    ensures
        move_ok(p, mv),
        keeps_agreement(p, mv),
{
    let from = mv.from as int;
    let to = mv.to as int;
    let piece = piece_on(p, from);
    let white = piece.color == Color::White;
    match mv.move_type {
        MoveType::Quiet => {
            lemma_quiet_target_empty(p, piece.piece_type, piece.color, from, mv.to as u64);
        },
        MoveType::Capture => {
            lemma_attack_target(p, piece.piece_type, piece.color, from, mv.to as u64);
            if piece.piece_type == PieceType::Pawn && has_bit(ep_mask(p), mv.to as u64) {
                lemma_ep_mask_bit(p, mv.to as u64);
            }
        },
        MoveType::EnPassant => {
            lemma_ep_mask_bit(p, mv.to as u64);
        },
        MoveType::CastleKingside => {
            assert(kings_home(p, piece.color));
            assert(p.mailbox[from] == Some(Piece { piece_type: PieceType::King, color: piece.color }));
        },
        MoveType::CastleQueenside => {
            assert(kings_home(p, piece.color));
            assert(p.mailbox[from] == Some(Piece { piece_type: PieceType::King, color: piece.color }));
        },
        MoveType::Promotion(_) => {},
        MoveType::Unknown => {},
    }
}

/// A well-formed position has a king of `c` exactly when a square holds one.
proof fn lemma_has_king_square(p: Position, c: Color)
    requires
        wf(p),
    ensures
        has_king(p, c) <==> exists|k: int| 0 <= k < 64 && #[trigger] p.mailbox[k] == Some(Piece { piece_type: PieceType::King, color: c }),
{
    let king = Piece { piece_type: PieceType::King, color: c };
    lemma_piece_index(king);
    let i = crate::movegen::bb_index(PieceType::King, c);
    assert(i == piece_index(king));
    let bb = p.bitboards[i];
    if has_king(p, c) {
        crate::bits::lemma_pop_lsb(bb);
        let k = vstd::std_specs::bits::u64_trailing_zeros(bb) as u64;
        assert(has_bit(bb, k));
        assert(p.mailbox[k as int] == Some(king));
    }
    if exists|k: int| 0 <= k < 64 && #[trigger] p.mailbox[k] == Some(king) {
        let k = choose|k: int| 0 <= k < 64 && #[trigger] p.mailbox[k] == Some(king);
        assert(has_bit(bb, k as u64));
        if bb == 0 {
            lemma_zero_bits(k as u64);
        }
    }
}

/// The occupied sets of `p` are those of its pieces: a square is in the
/// white set exactly when a white piece stands on it, in the black set
/// exactly when a black piece does, the set of all is their union, and no
/// square is in both.
pub open spec fn occupied_matches(p: Position) -> bool {
    &&& forall|t: u64|
        t < 64 ==> (#[trigger] has_bit(p.occupied.white, t) <==> (p.mailbox[t as int] is Some
            && p.mailbox[t as int]->0.color == Color::White))
    &&& forall|t: u64|
        t < 64 ==> (#[trigger] has_bit(p.occupied.black, t) <==> (p.mailbox[t as int] is Some
            && p.mailbox[t as int]->0.color == Color::Black))
    &&& p.occupied.all == p.occupied.white | p.occupied.black
    &&& p.occupied.white & p.occupied.black == 0
}

/// In a well-formed position the occupied sets agree with the pieces, and
/// the white and black sets are disjoint.
pub proof fn law_wf_occupied_matches(p: Position)
    requires
        wf(p),
    ensures
        occupied_matches(p),
{
    assert forall|t: u64| t < 64 implies #[trigger] has_bit(p.occupied.white, t) <==> (
    p.mailbox[t as int] is Some && p.mailbox[t as int]->0.color == Color::White) by {
        lemma_occupied_bits(p, t);
    }
    assert forall|t: u64| t < 64 implies #[trigger] has_bit(p.occupied.black, t) <==> (
    p.mailbox[t as int] is Some && p.mailbox[t as int]->0.color == Color::Black) by {
        lemma_occupied_bits(p, t);
    }
    assert forall|t: u64| t < 64 implies has_bit(p.occupied.white & p.occupied.black, t) == has_bit(
        0u64,
        t,
    ) by {
        lemma_occupied_bits(p, t);
        lemma_and_bit(p.occupied.white, p.occupied.black, t);
        lemma_zero_bits(t);
    }
    crate::bits::lemma_bits_ext(p.occupied.white & p.occupied.black, 0u64);
}

/// A move that puts no piece on a square holding another keeps the
/// occupied sets of a well-formed position in agreement with its pieces,
/// white and black apart.
pub proof fn law_move_keeps_occupied(p: Position, mv: Move)
    requires
        wf(p),
        move_ok(p, mv),
        keeps_agreement(p, mv),
    ensures
        occupied_matches(apply_move(p, mv)),
{
    crate::position::law_move_keeps_wf(p, mv);
    law_wf_occupied_matches(apply_move(p, mv));
}

/// Every move generated on a sound position keeps the occupied sets in
/// agreement with the pieces, white and black apart.
pub proof fn law_generated_move_keeps_occupied(p: Position, mv: Move)
    requires
        sound(p),
        generated(p, mv),
    ensures
        occupied_matches(apply_move(p, mv)),
{
    lemma_generated_move_result(p, mv);
    law_wf_occupied_matches(apply_move(p, mv));
}

/// On a sound position, a generated move leaves an en-passant square on the
/// board, keeps the mover's king, keeps the position well formed and hands
/// the move to the other side.
pub proof fn lemma_generated_move_result(p: Position, mv: Move)
    requires
        sound(p),
        generated(p, mv),
    ensures
        wf(apply_move(p, mv)),
        ep_ok(apply_move(p, mv)),
        apply_move(p, mv).color_to_move == p.color_to_move.inverse(),
        has_king(apply_move(p, mv), p.color_to_move),
{
    lemma_generated_move_ok(p, mv);
    crate::position::law_move_keeps_wf(p, mv);
    let q = apply_move(p, mv);
    let c = p.color_to_move;
    let king = Piece { piece_type: PieceType::King, color: c };
    let from = mv.from as int;
    let to = mv.to as int;
    let piece = piece_on(p, from);
    lemma_has_king_square(p, c);
    lemma_has_king_square(q, c);
    let k = choose|k: int| 0 <= k < 64 && #[trigger] p.mailbox[k] == Some(king);
    match mv.move_type {
        MoveType::Quiet => {
            lemma_quiet_target_empty(p, piece.piece_type, piece.color, from, mv.to as u64);
            if piece == king {
                assert(q.mailbox[to] == Some(king));
            } else {
                assert(q.mailbox[k] == Some(king));
            }
        },
        MoveType::Capture => {
            lemma_attack_target(p, piece.piece_type, piece.color, from, mv.to as u64);
            if piece.piece_type == PieceType::Pawn && has_bit(ep_mask(p), mv.to as u64) {
                lemma_ep_mask_bit(p, mv.to as u64);
            }
            if piece == king {
                assert(q.mailbox[to] == Some(king));
            } else {
                assert(q.mailbox[k] == Some(king));
            }
        },
        MoveType::EnPassant => {
            lemma_ep_mask_bit(p, mv.to as u64);
            assert(q.mailbox[k] == Some(king));
        },
        MoveType::CastleKingside => {
            assert(q.mailbox[to] == Some(king));
        },
        MoveType::CastleQueenside => {
            assert(q.mailbox[to] == Some(king));
        },
        MoveType::Promotion(_) => {
            if has_bit(moves_spec(p, piece.piece_type, piece.color, from), mv.to as u64) {
                lemma_quiet_target_empty(p, piece.piece_type, piece.color, from, mv.to as u64);
            } else {
                lemma_attack_target(p, piece.piece_type, piece.color, from, mv.to as u64);
                if has_bit(ep_mask(p), mv.to as u64) {
                    lemma_ep_mask_bit(p, mv.to as u64);
                }
            }
            assert(q.mailbox[k] == Some(king));
        },
        MoveType::Unknown => {},
    }
}

/// The piece that stands on the target square after the move.
pub open spec fn moved_piece(p: Position, mv: Move) -> Piece {
    let piece = piece_on(p, mv.from as int);
    match mv.move_type {
        MoveType::Promotion(pt) => Piece { piece_type: pt, color: piece.color },
        _ => piece,
    }
}

/// What square `s` holds after the move: the moved piece on the target,
/// nothing on the square left, the rook of a castling moved from its corner
/// to its new square, the pawn taken en passant gone, the rest unchanged.
pub open spec fn square_after(p: Position, mv: Move, s: int) -> Option<Piece> {
    let from = mv.from as int;
    let to = mv.to as int;
    let piece = piece_on(p, from);
    if s == to {
        Some(moved_piece(p, mv))
    } else if s == from {
        None
    } else {
        match mv.move_type {
            MoveType::CastleKingside => {
                let (corner, dest) = crate::position::castle_rook_squares(piece.color, true);
                if s == corner {
                    None
                } else if s == dest {
                    p.mailbox[corner]
                } else {
                    p.mailbox[s]
                }
            },
            MoveType::CastleQueenside => {
                let (corner, dest) = crate::position::castle_rook_squares(piece.color, false);
                if s == corner {
                    None
                } else if s == dest {
                    p.mailbox[corner]
                } else {
                    p.mailbox[s]
                }
            },
            MoveType::EnPassant => if s == en_passant_victim(piece.color, to) {
                None
            } else {
                p.mailbox[s]
            },
            _ => p.mailbox[s],
        }
    }
}

proof fn lemma_square_after(p: Position, mv: Move, s: int)
    requires
        sound(p),
        generated(p, mv),
        0 <= s < 64,
    ensures
        apply_move(p, mv).mailbox[s] == square_after(p, mv, s),
{
    let from = mv.from as int;
    let piece = piece_on(p, from);
    lemma_generated_move_ok(p, mv);
    match mv.move_type {
        MoveType::EnPassant => {
            lemma_attack_target(p, piece.piece_type, piece.color, from, mv.to as u64);
        },
        MoveType::CastleKingside => {
            assert(kings_home(p, piece.color));
            assert(p.mailbox[from] == Some(Piece { piece_type: PieceType::King, color: piece.color }));
        },
        MoveType::CastleQueenside => {
            assert(kings_home(p, piece.color));
            assert(p.mailbox[from] == Some(Piece { piece_type: PieceType::King, color: piece.color }));
        },
        _ => {},
    }
}

/// On a sound position, generating the moves, making each of them and
/// testing it for legality raises no panic.
pub proof fn law_sound_step_ok(p: Position)
    requires
        sound(p),
    ensures
        step_ok(p),
{
    let ms = pseudolegal(p);
    lemma_pseudolegal_generated(p);
    assert forall|i: int| 0 <= i < ms.len() implies {
        let q = apply_move(p, #[trigger] ms[i]);
        &&& move_ok(p, ms[i])
        &&& ep_ok(q)
        &&& has_king(q, q.color_to_move.inverse())
    } by {
        lemma_generated_move_ok(p, ms[i]);
        lemma_generated_move_result(p, ms[i]);
    }
    assert forall|from: int|
        0 <= from < 2 && #[trigger] p.mailbox[from] == Some(
            Piece { piece_type: PieceType::King, color: p.color_to_move },
        ) implies !can_castle_queenside_spec(p) by {
        if can_castle_queenside_spec(p) {
            assert(kings_home(p, p.color_to_move));
        }
    }
}

/// A pawn's two-square step passes over an empty square.
proof fn lemma_double_step_path(p: Position, c: Color, from: int, t: u64)
    requires
        wf(p),
        0 <= from < 64,
        t < 64,
        has_bit(moves_spec(p, PieceType::Pawn, c, from), t),
        (c == Color::White && t == from + 16) || (c == Color::Black && t == from - 16),
    ensures
        c == Color::White ==> p.mailbox[from + 8] is None,
        c == Color::Black ==> p.mailbox[from - 8] is None,
{
    let empty = !p.occupied.all;
    let ci = c.index() as int;
    let single = crate::tables::single_push_table(ci, from) & empty;
    let double = if single != 0 {
        crate::tables::double_push_table(ci, from) & empty
    } else {
        0u64
    };
    lemma_or_bit(single, double, t);
    lemma_and_bit(crate::tables::single_push_table(ci, from), empty, t);
    lemma_bits_of(|u: u64| crate::tables::single_push_rel(ci, from, u as int), t);
    if single == 0 {
        lemma_zero_bits(t);
    } else {
        crate::bits::lemma_pop_lsb(single);
        let u = vstd::std_specs::bits::u64_trailing_zeros(single) as u64;
        assert(has_bit(single, u));
        lemma_and_bit(crate::tables::single_push_table(ci, from), empty, u);
        lemma_bits_of(|v: u64| crate::tables::single_push_rel(ci, from, v as int), u);
        lemma_not_bit(p.occupied.all, u);
        lemma_occupied_bits(p, u);
    }
}

/// A sound position stays sound after a legal move that the generator
/// gives: the castling rights, the en-passant square and the single king of
/// each side stay backed by the board.
pub proof fn law_sound_preserved(p: Position, mv: Move)
    requires
        sound(p),
        generated(p, mv),
        crate::tree::is_legal(p, mv),
    ensures
        sound(apply_move(p, mv)),
{
    let q = apply_move(p, mv);
    let m = p.color_to_move;
    let o = m.inverse();
    let from = mv.from as int;
    let to = mv.to as int;
    let piece = piece_on(p, from);
    lemma_generated_move_ok(p, mv);
    lemma_generated_move_result(p, mv);
    assert forall|s: int| 0 <= s < 64 implies #[trigger] q.mailbox[s] == square_after(p, mv, s) by {
        lemma_square_after(p, mv, s);
    }
    // The target holds no king of the other side: a capture of it would
    // have found it attacked.
    let ko = king_square(p, o);
    crate::board::lemma_king_square(p, o);
    lemma_has_king_square(p, o);
    let kk = choose|k: int| 0 <= k < 64 && #[trigger] p.mailbox[k] == Some(Piece { piece_type: PieceType::King, color: o });
    assert(has_bit(p.bitboards[crate::movegen::bb_index(PieceType::King, o)], ko as u64)) by {
        crate::bits::lemma_pop_lsb(p.bitboards[crate::movegen::bb_index(PieceType::King, o)]);
    }
    lemma_piece_index(Piece { piece_type: PieceType::King, color: o });
    assert(p.mailbox[ko] == Some(Piece { piece_type: PieceType::King, color: o }));
    if to == ko {
        match mv.move_type {
            MoveType::Quiet => {
                lemma_quiet_target_empty(p, piece.piece_type, piece.color, from, mv.to as u64);
            },
            MoveType::EnPassant => {
                lemma_ep_mask_bit(p, mv.to as u64);
            },
            MoveType::Capture => {
                lemma_attack_is_seen(p, from, mv.to as u64);
            },
            MoveType::Promotion(_) => {
                if has_bit(moves_spec(p, piece.piece_type, piece.color, from), mv.to as u64) {
                    lemma_quiet_target_empty(p, piece.piece_type, piece.color, from, mv.to as u64);
                } else {
                    lemma_attack_is_seen(p, from, mv.to as u64);
                }
            },
            _ => {},
        }
    }
    assert(to != ko);
    match mv.move_type {
        MoveType::EnPassant => {
            lemma_ep_mask_bit(p, mv.to as u64);
        },
        MoveType::CastleKingside => {
            assert(p.mailbox[from] == Some(Piece { piece_type: PieceType::King, color: m }));
        },
        MoveType::CastleQueenside => {
            assert(p.mailbox[from] == Some(Piece { piece_type: PieceType::King, color: m }));
        },
        _ => {},
    }
    assert(q.mailbox[ko] == square_after(p, mv, ko));
    assert(q.mailbox[ko] == Some(Piece { piece_type: PieceType::King, color: o }));
    lemma_has_king_square(q, o);
    lemma_has_king_square(q, m);
    // The kings after the move.
    assert forall|s: int|
        0 <= s < 64 && #[trigger] q.mailbox[s] == Some(Piece { piece_type: PieceType::King, color: Color::White })
            implies (s == to && piece == Piece { piece_type: PieceType::King, color: Color::White }) || (s != from
        && p.mailbox[s] == Some(Piece { piece_type: PieceType::King, color: Color::White })) by {
        assert(q.mailbox[s] == square_after(p, mv, s));
    }
    assert forall|s: int|
        0 <= s < 64 && #[trigger] q.mailbox[s] == Some(Piece { piece_type: PieceType::King, color: Color::Black })
            implies (s == to && piece == Piece { piece_type: PieceType::King, color: Color::Black }) || (s != from
        && p.mailbox[s] == Some(Piece { piece_type: PieceType::King, color: Color::Black })) by {
        assert(q.mailbox[s] == square_after(p, mv, s));
    }
    assert(one_king(q, Color::White));
    assert(one_king(q, Color::Black));
    // The castling rights.
    let ra = crate::position::rights_after(p.castling_rights, piece, from, to);
    assert(q.castling_rights.white_king_side ==> ra.white_king_side);
    assert(q.castling_rights.white_queen_side ==> ra.white_queen_side);
    assert(q.castling_rights.black_king_side ==> ra.black_king_side);
    assert(q.castling_rights.black_queen_side ==> ra.black_queen_side);
    assert(q.mailbox[7] == square_after(p, mv, 7));
    assert(q.mailbox[0] == square_after(p, mv, 0));
    assert(q.mailbox[63] == square_after(p, mv, 63));
    assert(q.mailbox[56] == square_after(p, mv, 56));
    assert(castling_sound(q));
    // The en-passant square.
    if let Some(e) = q.en_passant_square {
        match mv.move_type {
            MoveType::Quiet => {
                if piece.color == Color::White {
                    lemma_double_step_path(p, Color::White, from, mv.to as u64);
                } else {
                    lemma_double_step_path(p, Color::Black, from, mv.to as u64);
                }
                assert(q.mailbox[e as int] == square_after(p, mv, e as int));
            },
            MoveType::Capture => {
                lemma_attack_target(p, piece.piece_type, piece.color, from, mv.to as u64);
            },
            MoveType::EnPassant => {
                lemma_attack_target(p, piece.piece_type, piece.color, from, mv.to as u64);
            },
            _ => {},
        }
    }
    assert(en_passant_sound(q));
}

/// From a sound position, walking the tree of legal moves to any depth
/// raises no panic.
pub proof fn law_sound_safe_tree(p: Position, d: nat)
    requires
        sound(p),
    ensures
        crate::tree::safe_tree(p, d),
    decreases d,
{
    if d > 0 {
        law_sound_step_ok(p);
        lemma_pseudolegal_generated(p);
        let ms = pseudolegal(p);
        assert forall|i: int| 0 <= i < ms.len() && crate::tree::is_legal(p, #[trigger] ms[i]) implies crate::tree::safe_tree(
            apply_move(p, ms[i]),
            (d - 1) as nat,
        ) by {
            law_sound_preserved(p, ms[i]);
            law_sound_safe_tree(apply_move(p, ms[i]), (d - 1) as nat);
        }
    }
}

/// From e8 in the starting position, every piece type reaches only squares
/// of the sixth rank and above: its neighbours on the seventh and eighth
/// ranks are all occupied.
proof fn lemma_start_attacks_high(pt: PieceType, t: u64)
    requires
        t < 64,
        has_bit(attacks_spec(flip(crate::board::start_position()), pt, Color::Black, 60), t),
    ensures
        t >= 40,
{
    let p = flip(crate::board::start_position());
    let all = p.occupied.all;
    let enemy = p.occupied.enemy(&Color::Black);
    let ti = t as int;
    assert forall|u: u64| 48 <= u < 64 implies has_bit(all, u) by {
        assert(48 <= u < 64 ==> (0xffff00000000ffffu64 >> u) & 1u64 == 1u64) by (bit_vector);
    }
    assert forall|d: int, k: int|
        0 <= d < 8 && k >= 1 && crate::slider::on_ray(60, d, all, k) implies k >= 40 by {
        let kk = crate::slider::ray_dist(60, d, k);
        crate::slider::lemma_ray_point(60, d, kk);
        if kk >= 2 {
            crate::slider::lemma_ray_point(60, d, 1);
            let first = crate::slider::ray_sq(60, d, 1);
            assert(!has_bit(all, first as u64));
            assert(48 <= first < 64);
        }
    }
    match pt {
        PieceType::Pawn => {
            lemma_and_bit(pawn_attack_table(1, 60), enemy | ep_mask(p), t);
            lemma_bits_of(|u: u64| pawn_attack_rel(1, 60, u as int), t);
        },
        PieceType::Knight => {
            lemma_and_bit(crate::tables::knight_table(60), enemy, t);
            lemma_bits_of(|u: u64| crate::tables::knight_rel(60, u as int), t);
        },
        PieceType::King => {
            lemma_and_bit(crate::tables::king_table(60), enemy, t);
            lemma_bits_of(|u: u64| crate::tables::king_rel(60, u as int), t);
        },
        PieceType::Bishop => {
            lemma_and_bit(crate::slider::bishop_table(60, all), enemy, t);
            lemma_bits_of(|u: u64| crate::slider::slider_rel(60, all, true, u as int), t);
        },
        PieceType::Rook => {
            lemma_and_bit(crate::slider::rook_table(60, all), enemy, t);
            lemma_bits_of(|u: u64| crate::slider::slider_rel(60, all, false, u as int), t);
        },
        PieceType::Queen => {
            let r = crate::slider::rook_table(60, all);
            let b = crate::slider::bishop_table(60, all);
            lemma_and_bit(r | b, enemy, t);
            lemma_or_bit(r, b, t);
            lemma_bits_of(|u: u64| crate::slider::slider_rel(60, all, false, u as int), t);
            lemma_bits_of(|u: u64| crate::slider::slider_rel(60, all, true, u as int), t);
        },
    }
}

/// The starting position is sound.
pub proof fn law_start_position_sound()
    ensures
        sound(crate::board::start_position()),
{
    let p = crate::board::start_position();
    crate::board::law_start_position_wf();
    lemma_has_king_square(p, Color::White);
    lemma_has_king_square(p, Color::Black);
    assert(p.mailbox[4] == Some(Piece { piece_type: PieceType::King, color: Color::White }));
    assert(p.mailbox[60] == Some(Piece { piece_type: PieceType::King, color: Color::Black }));
    // The black king is not attacked by White.
    let fp = flip(p);
    crate::board::lemma_king_square(p, Color::Black);
    lemma_piece_index(Piece { piece_type: PieceType::King, color: Color::Black });
    let kb = king_square(p, Color::Black);
    assert(has_bit(p.bitboards[11], kb as u64)) by {
        crate::bits::lemma_pop_lsb(p.bitboards[11]);
    }
    assert(kb == 60);
    let terms = |pt: PieceType| attacks_spec(fp, pt, Color::Black, 60) & fp.bitboards[crate::movegen::bb_index(pt, Color::White)];
    assert forall|pt: PieceType, t: u64| t < 64 implies !#[trigger] has_bit(terms(pt), t) by {
        lemma_and_bit(attacks_spec(fp, pt, Color::Black, 60), fp.bitboards[crate::movegen::bb_index(pt, Color::White)], t);
        if has_bit(attacks_spec(fp, pt, Color::Black, 60), t) {
            lemma_start_attacks_high(pt, t);
            let w = fp.bitboards[crate::movegen::bb_index(pt, Color::White)];
            assert(t >= 40 ==> (0xff00u64 >> t) & 1u64 != 1u64 && (0x42u64 >> t) & 1u64 != 1u64 && (0x24u64
                >> t) & 1u64 != 1u64 && (0x81u64 >> t) & 1u64 != 1u64 && (0x8u64 >> t) & 1u64 != 1u64
                && (0x10u64 >> t) & 1u64 != 1u64) by (bit_vector);
        }
    }
    let t0 = terms(PieceType::Pawn);
    let t1 = terms(PieceType::Knight);
    let t2 = terms(PieceType::Bishop);
    let t3 = terms(PieceType::Rook);
    let t4 = terms(PieceType::Queen);
    let t5 = terms(PieceType::King);
    let all_terms = t0 | t1 | t2 | t3 | t4 | t5;
    assert forall|t: u64| t < 64 implies has_bit(all_terms, t) == has_bit(0u64, t) by {
        lemma_or_bit(t0, t1, t);
        lemma_or_bit(t0 | t1, t2, t);
        lemma_or_bit(t0 | t1 | t2, t3, t);
        lemma_or_bit(t0 | t1 | t2 | t3, t4, t);
        lemma_or_bit(t0 | t1 | t2 | t3 | t4, t5, t);
        lemma_zero_bits(t);
        assert(!has_bit(terms(PieceType::Pawn), t));
        assert(!has_bit(terms(PieceType::Knight), t));
        assert(!has_bit(terms(PieceType::Bishop), t));
        assert(!has_bit(terms(PieceType::Rook), t));
        assert(!has_bit(terms(PieceType::Queen), t));
        assert(!has_bit(terms(PieceType::King), t));
    }
    crate::bits::lemma_bits_ext(all_terms, 0u64);
    assert(!crate::movegen::attacked(fp, 60));
}

/// Walking the tree of legal moves from the starting position to any depth
/// raises no panic: perft and the search from the start can go as deep as
/// their counts fit.
pub proof fn law_start_tree_is_safe(d: nat)
    ensures
        crate::tree::safe_tree(crate::board::start_position(), d),
{
    law_start_position_sound();
    law_sound_safe_tree(crate::board::start_position(), d);
}

/// What a piece can be worth: its value, and a queen's value for a pawn,
/// which may promote.
pub open spec fn potential_value(pt: PieceType) -> int {
    if pt == PieceType::Pawn {
        900
    } else {
        crate::types::type_value(pt) as int
    }
}

/// What the content of a square can be worth to the side `c`.
pub open spec fn owned_value(x: Option<Piece>, c: Color) -> int {
    match x {
        Some(q) => if q.color == c {
            potential_value(q.piece_type)
        } else {
            0
        },
        None => 0,
    }
}

/// What the pieces of `c` on the squares below `n` can be worth.
pub open spec fn potential(m: Seq<Option<Piece>>, c: Color, n: nat) -> int
    decreases n,
{
    if n == 0 {
        0
    } else {
        potential(m, c, (n - 1) as nat) + owned_value(m[n - 1], c)
    }
}

proof fn lemma_potential_update(m: Seq<Option<Piece>>, c: Color, n: nat, s: int, x: Option<Piece>)
    requires
        0 <= s < m.len(),
        n <= m.len(),
    ensures
        potential(m.update(s, x), c, n) == potential(m, c, n) + if s < n {
            owned_value(x, c) - owned_value(m[s], c)
        } else {
            0
        },
    decreases n,
{
    if n > 0 {
        lemma_potential_update(m, c, (n - 1) as nat, s, x);
    }
}

proof fn lemma_material_le_potential(m: Seq<Option<Piece>>, c: Color, n: nat)
    ensures
        crate::board::material(m, c, n) <= potential(m, c, n),
    decreases n,
{
    if n > 0 {
        lemma_material_le_potential(m, c, (n - 1) as nat);
    }
}

/// What the pieces of each side can be worth is at most what they can be
/// worth in the starting position.
pub open spec fn material_bounded(p: Position) -> bool {
    &&& potential(p.mailbox, Color::White, 64) <= 20300
    &&& potential(p.mailbox, Color::Black, 64) <= 20300
}

/// A generated move never raises what the pieces of a side can be worth:
/// it moves pieces, takes enemy pieces, and promotes a pawn to a piece worth
/// at most a queen.
proof fn lemma_potential_not_raised(p: Position, mv: Move, c: Color)
    requires
        sound(p),
        generated(p, mv),
    ensures
        potential(apply_move(p, mv).mailbox, c, 64) <= potential(p.mailbox, c, 64),
{
    let q = apply_move(p, mv);
    let m = p.mailbox;
    let from = mv.from as int;
    let to = mv.to as int;
    let piece = piece_on(p, from);
    lemma_generated_move_ok(p, mv);
    assert forall|s: int| 0 <= s < 64 implies #[trigger] q.mailbox[s] == square_after(p, mv, s) by {
        lemma_square_after(p, mv, s);
    }
    assert(q.mailbox.len() == 64);
    match mv.move_type {
        MoveType::CastleKingside | MoveType::CastleQueenside => {
            let kingside = mv.move_type == MoveType::CastleKingside;
            let (corner, dest) = crate::position::castle_rook_squares(piece.color, kingside);
            assert(kings_home(p, piece.color));
            assert(p.mailbox[from] == Some(Piece { piece_type: PieceType::King, color: piece.color }));
            let m1 = m.update(corner, None);
            let m2 = m1.update(dest, m[corner]);
            let m3 = m2.update(from, None);
            let m4 = m3.update(to, Some(piece));
            assert(q.mailbox =~= m4);
            lemma_potential_update(m, c, 64, corner, None);
            lemma_potential_update(m1, c, 64, dest, m[corner]);
            lemma_potential_update(m2, c, 64, from, None);
            lemma_potential_update(m3, c, 64, to, Some(piece));
        },
        MoveType::EnPassant => {
            lemma_ep_mask_bit(p, mv.to as u64);
            lemma_attack_target(p, piece.piece_type, piece.color, from, mv.to as u64);
            let v = en_passant_victim(piece.color, to);
            let m1 = m.update(v, None);
            let m2 = m1.update(from, None);
            let m3 = m2.update(to, Some(piece));
            assert(q.mailbox =~= m3);
            lemma_potential_update(m, c, 64, v, None);
            lemma_potential_update(m1, c, 64, from, None);
            lemma_potential_update(m2, c, 64, to, Some(piece));
        },
        _ => {
            match mv.move_type {
                MoveType::Quiet => {
                    lemma_quiet_target_empty(p, piece.piece_type, piece.color, from, mv.to as u64);
                },
                MoveType::Capture => {
                    lemma_attack_target(p, piece.piece_type, piece.color, from, mv.to as u64);
                    if piece.piece_type == PieceType::Pawn && has_bit(ep_mask(p), mv.to as u64) {
                        lemma_ep_mask_bit(p, mv.to as u64);
                    }
                },
                MoveType::Promotion(_) => {
                    if has_bit(moves_spec(p, piece.piece_type, piece.color, from), mv.to as u64) {
                        lemma_quiet_target_empty(p, piece.piece_type, piece.color, from, mv.to as u64);
                    } else {
                        lemma_attack_target(p, piece.piece_type, piece.color, from, mv.to as u64);
                        if has_bit(ep_mask(p), mv.to as u64) {
                            lemma_ep_mask_bit(p, mv.to as u64);
                        }
                    }
                },
                _ => {},
            }
            let m1 = m.update(from, None);
            let m2 = m1.update(to, Some(moved_piece(p, mv)));
            assert(q.mailbox =~= m2);
            lemma_potential_update(m, c, 64, from, None);
            lemma_potential_update(m1, c, 64, to, Some(moved_piece(p, mv)));
        },
    }
}

/// From a sound position whose pieces can be worth no more than in the
/// starting position, a search to any depth raises no panic.
pub proof fn law_sound_search_ok(p: Position, d: nat)
    requires
        sound(p),
        material_bounded(p),
    ensures
        crate::search::search_ok(p, d),
    decreases d,
{
    if d == 0 {
        lemma_material_le_potential(p.mailbox, Color::White, 64);
        lemma_material_le_potential(p.mailbox, Color::Black, 64);
    } else {
        law_sound_step_ok(p);
        lemma_pseudolegal_generated(p);
        let ms = pseudolegal(p);
        assert forall|i: int| 0 <= i < ms.len() && crate::tree::is_legal(p, #[trigger] ms[i]) implies crate::search::search_ok(
            apply_move(p, ms[i]),
            (d - 1) as nat,
        ) by {
            law_sound_preserved(p, ms[i]);
            lemma_potential_not_raised(p, ms[i], Color::White);
            lemma_potential_not_raised(p, ms[i], Color::Black);
            law_sound_search_ok(apply_move(p, ms[i]), (d - 1) as nat);
        }
    }
}

/// What the first `k` pieces of a back rank are worth: rook, knight,
/// bishop, queen, king, bishop, knight, rook.
pub open spec fn back_rank_prefix(k: int) -> int {
    if k <= 0 {
        0
    } else if k == 1 {
        500
    } else if k == 2 {
        800
    } else if k == 3 {
        1100
    } else if k == 4 {
        2000
    } else if k == 5 {
        12000
    } else if k == 6 {
        12300
    } else if k == 7 {
        12600
    } else {
        13100
    }
}

proof fn lemma_start_potential(c: Color, n: nat)
    requires
        n <= 64,
    ensures
        potential(crate::board::start_position().mailbox, c, n) == if c == Color::White {
            if n <= 8 {
                back_rank_prefix(n as int)
            } else if n <= 16 {
                13100 + 900 * (n - 8)
            } else {
                20300
            }
        } else {
            if n <= 48 {
                0
            } else if n <= 56 {
                900 * (n - 48)
            } else {
                7200 + back_rank_prefix(n - 56)
            }
        },
    decreases n,
{
    if n > 0 {
        lemma_start_potential(c, (n - 1) as nat);
        let s = n - 1;
        assert(crate::board::start_position().mailbox[s] == crate::types::start_piece(s));
    }
}

/// The starting position's pieces are worth what `material_bounded` allows.
proof fn lemma_start_bounded()
    ensures
        material_bounded(crate::board::start_position()),
{
    lemma_start_potential(Color::White, 64);
    lemma_start_potential(Color::Black, 64);
}

/// A search from the starting position to any depth raises no panic.
pub proof fn law_start_search_ok(d: nat)
    ensures
        crate::search::search_ok(crate::board::start_position(), d),
{
    law_start_position_sound();
    lemma_start_bounded();
    law_sound_search_ok(crate::board::start_position(), d);
}

} // verus!
