//! A whole game: the positions so far, for undo and repetition, and the
//! moves played with their notation.

use vstd::prelude::*;
use crate::fen::{fen_model, FenError};
use crate::legality::{law_legal_moves_keep_sanity, sane};
use crate::movegen::{gen_move_ok, gen_ok, legal_moves_of};
use crate::moves::{first_where, lemma_first_where_member};
use crate::moves::{Move, MoveList};
use crate::position::{apply_model, in_check_on, model_hash, start_model, Model, Position};
use crate::san::{format_ok, parse_ok, san_move, san_text};
use crate::types::{Color, Piece, PieceKind};
use crate::uci::{uci_move, uci_text};

verus! {

#[derive(Clone, Copy, PartialEq, Eq, Debug, Structural)]
pub enum GameStatus {
    Ongoing,
    Checkmate { winner: Color },
    Stalemate,
    FiftyMoveRule,
    ThreefoldRepetition,
    InsufficientMaterial,
}

impl GameStatus {
    pub fn is_over(self) -> (b: bool)
        ensures
            b == !(self is Ongoing),
    {
        match self {
            GameStatus::Ongoing => false,
            _ => true,
        }
    }
}

/// One played move with what the interface and storage show of it.
#[derive(Clone, Debug)]
pub struct PlayedMove {
    pub mv: Move,
    pub san: String,
    pub uci: String,
}

/// The record of a move played in position `m`.
pub open spec fn record_of(m: Model, mv: Move, p: PlayedMove) -> bool {
    &&& p.mv == mv
    &&& p.san@ == san_text(m, mv)
    &&& p.uci@ == uci_text(mv)
}

/// A history: each position follows from the one before by the move
/// recorded between them.
pub open spec fn history_ok(models: Seq<Model>, record: Seq<PlayedMove>) -> bool {
    &&& models.len() == record.len() + 1
    &&& forall|i: int|
        0 <= i < record.len() ==> {
            &&& #[trigger] models[i + 1] == apply_model(models[i], record[i].mv)
            &&& record_of(models[i], record[i].mv, record[i])
        }
}

/// `b` is `a` with `mv` played: one more position, the one the move leads
/// to, and one more record, the move's.
pub open spec fn played(a: Game, mv: Move, b: Game) -> bool {
    &&& b.wf()
    &&& b.models() == a.models().push(apply_model(a.current(), mv))
    &&& b.record().len() == a.record().len() + 1
    &&& b.record().drop_last() == a.record()
    &&& record_of(a.current(), mv, b.record().last())
}

/// `b` is `a` with its last move taken back.
pub open spec fn undone(a: Game, b: Game) -> bool {
    &&& b.wf()
    &&& b.models() == a.models().drop_last()
    &&& b.record() == a.record().drop_last()
}

/// Playing a legal move that a search found keeps every position of a
/// game one that can arise in play.
pub proof fn lemma_play_found_keeps_all_sane(a: Game, p: spec_fn(Move) -> bool, b: Game)
    requires
        a.wf(),
        a.all_sane(),
        first_where(legal_moves_of(a.current()), p) is Some,
        played(a, first_where(legal_moves_of(a.current()), p).unwrap(), b),
    ensures
        b.all_sane(),
{
    lemma_found_move_keeps_sanity(a.current(), p);
    assert(sane(a.models()[a.models().len() - 1]));
    assert forall|i: int| 0 <= i < b.models().len() implies sane(#[trigger] b.models()[i]) by {
        if i < a.models().len() {
            assert(b.models()[i] == a.models()[i]);
        }
    }
}

/// Taking a move back keeps every position of a game one that can arise
/// in play.
pub proof fn lemma_undo_keeps_all_sane(a: Game, b: Game)
    requires
        a.wf(),
        a.all_sane(),
        undone(a, b),
    ensures
        b.all_sane(),
{
    assert(a.models().len() >= 1);
    assert forall|i: int| 0 <= i < b.models().len() implies sane(#[trigger] b.models()[i]) by {
        assert(b.models()[i] == a.models().drop_last()[i]);
        assert(a.models().drop_last()[i] == a.models()[i]);
    }
}

/// Taking back a move that was just played restores the game as it was:
/// its positions, current position and record.
pub proof fn law_undo_reverts_play(g0: Game, mv: Move, g1: Game, g2: Game)
    requires
        g0.wf(),
        played(g0, mv, g1),
        undone(g1, g2),
    ensures
        g1.record().len() > 0,
        g2.models() == g0.models(),
        g2.current() == g0.current(),
        g2.record() == g0.record(),
{
    assert(g0.models().push(apply_model(g0.current(), mv)).drop_last() =~= g0.models());
}

/// A full game: current position plus history for undo and repetition.
#[derive(Clone)]
pub struct Game {
    positions: Vec<Position>,
    played: Vec<PlayedMove>,
}

/// Number of positions in `models[lo..hi]` whose hash is `h`.
pub open spec fn hash_count(models: Seq<Model>, lo: int, hi: int, h: u64) -> nat
    decreases hi - lo,
{
    if lo >= hi {
        0
    } else {
        (if model_hash(models[lo]) == h {
            1nat
        } else {
            0nat
        }) + hash_count(models, lo + 1, hi, h)
    }
}

/// The current position occurred three times within the window the
/// halfmove clock allows (positions compared by hash).
pub open spec fn threefold(models: Seq<Model>) -> bool {
    let n = models.len() as int;
    let cur = models[n - 1];
    let window = if (cur.halfmove as int) < n - 1 {
        cur.halfmove as int
    } else {
        n - 1
    };
    1 + hash_count(models, n - 1 - window, n - 1, model_hash(cur)) >= 3
}

/// The status of a game whose positions are `models`.
pub open spec fn status_of(models: Seq<Model>) -> GameStatus {
    let m = models.last();
    if legal_moves_of(m).len() == 0 {
        if in_check_on(m.board, m.side) {
            GameStatus::Checkmate { winner: m.side.spec_opposite() }
        } else {
            GameStatus::Stalemate
        }
    } else if m.halfmove >= 100 {
        GameStatus::FiftyMoveRule
    } else if threefold(models) {
        GameStatus::ThreefoldRepetition
    } else if dead_by_material(m.board) {
        GameStatus::InsufficientMaterial
    } else {
        GameStatus::Ongoing
    }
}

impl Game {
    /// The positions of the game, first to current.
    pub closed spec fn models(self) -> Seq<Model> {
        self.positions@.map_values(|p: Position| p@)
    }

    /// The moves played, with their notation.
    pub closed spec fn record(self) -> Seq<PlayedMove> {
        self.played@
    }

    pub closed spec fn positions_wf(self) -> bool {
        forall|i: int| 0 <= i < self.positions@.len() ==> (#[trigger] self.positions@[i]).wf()
    }

    pub open spec fn wf(self) -> bool {
        &&& self.positions_wf()
        &&& history_ok(self.models(), self.record())
    }

    /// The current position.
    pub open spec fn current(self) -> Model {
        self.models().last()
    }

    /// Every position of the game can arise in play.
    pub open spec fn all_sane(self) -> bool {
        forall|i: int| 0 <= i < self.models().len() ==> sane(#[trigger] self.models()[i])
    }

    pub fn new() -> (g: Game)
        ensures
            g.wf(),
            g.models() == seq![start_model()],
            g.record() == Seq::<PlayedMove>::empty(),
            sane(g.current()),
            g.all_sane(),
            parse_ok(g.current()),
    {
        let g = Game { positions: vec![Position::startpos()], played: Vec::new() };
        assert(g.models() =~= seq![start_model()]);
        proof {
            crate::legality::law_start_is_sane();
            crate::legality::law_sane_positions_can_be_played(start_model());
        }
        g
    }

    pub fn from_fen(fen: &str) -> (r: Result<Game, FenError>)
        requires
            fen@.len() < 0x0100_0000_0000_0000,
        ensures
            match r {
                Ok(g) => {
                    &&& g.wf()
                    &&& fen_model(fen@) == Some(g.current())
                    &&& g.models().len() == 1
                    &&& g.record() == Seq::<PlayedMove>::empty()
                },
                Err(e) => fen_model(fen@) is None && e.0@ == crate::fen::fen_error(fen@),
            },
    {
        match crate::fen::parse(fen) {
            Ok(pos) => {
                let g = Game { positions: vec![pos], played: Vec::new() };
                assert(g.models() =~= seq![pos@]);
                Ok(g)
            },
            Err(e) => Err(e),
        }
    }

    pub fn position(&self) -> (p: &Position)
        requires
            self.wf(),
        ensures
            p.wf(),
            p@ == self.current(),
    {
        let n = self.positions.len();
        assert(self.models().len() == n);
        assert(self.models()[n - 1] == self.positions@[n - 1]@);
        &self.positions[n - 1]
    }

    pub fn moves_played(&self) -> (s: &[PlayedMove])
        ensures
            s@ == self.record(),
    {
        self.played.as_slice()
    }

    pub fn legal_moves(&self) -> (l: MoveList)
        requires
            self.wf(),
            gen_ok(self.current()),
        ensures
            l@ == legal_moves_of(self.current()),
            crate::movegen::all_gen_ok(self.current(), l@),
    {
        crate::movegen::legal_moves(self.position())
    }

    /// Plays a move, recording its notation.
    pub fn play(&mut self, mv: Move)
        requires
            old(self).wf(),
            format_ok(old(self).current(), mv),
        ensures
            played(*old(self), mv, *final(self)),
    {
        let ghost old_models = self.models();
        let ghost old_record = self.record();
        let pos = self.position();
        let played = PlayedMove { mv, san: crate::san::format(pos, mv), uci: crate::uci::format(mv) };
        let next = pos.apply(mv);
        self.positions.push(next);
        self.played.push(played);
        assert(self.models() =~= old_models.push(next@));
        assert(self.record().drop_last() =~= old_record);
        assert forall|i: int| 0 <= i < self.positions@.len() implies (#[trigger] self.positions@[i]).wf() by {
            if i < self.positions@.len() - 1 {
                assert(self.positions@[i] == old(self).positions@[i]);
            }
        }
        assert forall|i: int| 0 <= i < self.record().len() implies {
            &&& #[trigger] self.models()[i + 1] == apply_model(self.models()[i], self.record()[i].mv)
            &&& record_of(self.models()[i], self.record()[i].mv, self.record()[i])
        } by {
            if i < old_record.len() {
                assert(self.models()[i + 1] == old_models[i + 1]);
                assert(self.models()[i] == old_models[i]);
                assert(self.record()[i] == old_record[i]);
            }
        }
    }

    /// Plays the move an input in Standard Algebraic Notation names.
    pub fn play_san(&mut self, input: &str) -> (r: Option<Move>)
        requires
            old(self).wf(),
            parse_ok(old(self).current()),
        ensures
            r == san_move(old(self).current(), input@),
            final(self).wf(),
            sane(old(self).current()) ==> sane(final(self).current()),
            old(self).all_sane() ==> final(self).all_sane(),
            match r {
                Some(mv) => played(*old(self), mv, *final(self)),
                None => *final(self) == *old(self),
            },
    {
        let mv = match crate::san::parse(self.position(), input) {
            Some(mv) => mv,
            None => return None,
        };
        let ghost m = self.current();
        proof {
            lemma_found_move_keeps_sanity(m, crate::san::san_pred(m, crate::san::normalized(input@)));
        }
        self.play(mv);
        proof {
            if old(self).all_sane() {
                lemma_play_found_keeps_all_sane(
                    *old(self),
                    crate::san::san_pred(m, crate::san::normalized(input@)),
                    *self,
                );
            }
        }
        Some(mv)
    }

    /// Plays the move a long algebraic text names.
    pub fn play_uci(&mut self, input: &str) -> (r: Option<Move>)
        requires
            old(self).wf(),
            parse_ok(old(self).current()),
        ensures
            r == uci_move(old(self).current(), input@),
            final(self).wf(),
            sane(old(self).current()) ==> sane(final(self).current()),
            old(self).all_sane() ==> final(self).all_sane(),
            match r {
                Some(mv) => played(*old(self), mv, *final(self)),
                None => *final(self) == *old(self),
            },
    {
        let mv = match crate::uci::parse(self.position(), input) {
            Some(mv) => mv,
            None => return None,
        };
        let ghost m = self.current();
        proof {
            let (from, to, promo) = crate::uci::uci_fields(input@).unwrap();
            lemma_found_move_keeps_sanity(m, crate::uci::uci_pred(from, to, promo));
        }
        self.play(mv);
        proof {
            if old(self).all_sane() {
                let (from, to, promo) = crate::uci::uci_fields(input@).unwrap();
                lemma_play_found_keeps_all_sane(*old(self), crate::uci::uci_pred(from, to, promo), *self);
            }
        }
        Some(mv)
    }

    /// Takes back the last move; returns false at the first position.
    pub fn undo(&mut self) -> (b: bool)
        requires
            old(self).wf(),
        ensures
            final(self).wf(),
            b == (old(self).record().len() > 0),
            b ==> undone(*old(self), *final(self)),
            old(self).all_sane() ==> final(self).all_sane(),
            !b ==> *final(self) == *old(self),
    {
        if self.played.len() == 0 {
            return false;
        }
        let ghost old_models = self.models();
        let ghost old_record = self.record();
        self.positions.pop();
        self.played.pop();
        assert(self.models() =~= old_models.drop_last());
        assert(self.record() =~= old_record.drop_last());
        proof {
            if old(self).all_sane() {
                assert forall|i: int| 0 <= i < self.models().len() implies sane(
                    #[trigger] self.models()[i],
                ) by {
                    assert(self.models()[i] == old_models[i]);
                }
            }
        }
        assert forall|i: int| 0 <= i < self.positions@.len() implies (#[trigger] self.positions@[i]).wf() by {
            assert(self.positions@[i] == old(self).positions@[i]);
        }
        assert forall|i: int| 0 <= i < self.record().len() implies {
            &&& #[trigger] self.models()[i + 1] == apply_model(self.models()[i], self.record()[i].mv)
            &&& record_of(self.models()[i], self.record()[i].mv, self.record()[i])
        } by {
            assert(self.models()[i + 1] == old_models[i + 1]);
            assert(self.models()[i] == old_models[i]);
            assert(self.record()[i] == old_record[i]);
        }
        true
    }

    pub fn status(&self) -> (s: GameStatus)
        requires
            self.wf(),
            gen_ok(self.current()),
        ensures
            s == status_of(self.models()),
    {
        let pos = self.position();
        if self.legal_moves().is_empty() {
            return if pos.in_check(pos.side_to_move) {
                GameStatus::Checkmate { winner: pos.side_to_move.opposite() }
            } else {
                GameStatus::Stalemate
            };
        }
        if pos.halfmove_clock >= 100 {
            return GameStatus::FiftyMoveRule;
        }
        if self.is_threefold() {
            return GameStatus::ThreefoldRepetition;
        }
        if is_insufficient_material(pos) {
            return GameStatus::InsufficientMaterial;
        }
        GameStatus::Ongoing
    }

    /// The current position occurred three times. Hashes stand for
    /// positions; only positions since the last irreversible move can
    /// repeat, which the halfmove clock bounds.
    fn is_threefold(&self) -> (b: bool)
        requires
            self.wf(),
        ensures
            b == threefold(self.models()),
    {
        let ghost models = self.models();
        let n = self.positions.len();
        let current = self.position();
        let h = current.hash;
        let clock = current.halfmove_clock as usize;
        let window = if clock < n - 1 {
            clock
        } else {
            n - 1
        };
        let lo = n - 1 - window;
        let mut count: usize = 1;
        let mut j: usize = n - 1;
        assert(models[n - 1] == current@);
        while j > lo
            invariant
                self.wf(),
                models == self.models(),
                n == models.len(),
                n == self.positions@.len(),
                h == model_hash(models[n - 1]),
                lo <= j <= n - 1,
                lo == n - 1 - (if (models[n - 1].halfmove as int) < n - 1 {
                    models[n - 1].halfmove as int
                } else {
                    n - 1
                }),
                count == 1 + hash_count(models, j as int, n - 1, h),
                count < 3,
            decreases j,
        {
            j = j - 1;
            assert(self.positions@[j as int].wf());
            assert(models[j as int] == self.positions@[j as int]@);
            if self.positions[j].hash == h {
                count = count + 1;
                if count >= 3 {
                    proof {
                        lemma_hash_count_grows(models, lo as int, j as int, n - 1, h);
                    }
                    return true;
                }
            }
        }
        false
    }
}

/// A legal move found by a search keeps a position that can arise in play so.
pub proof fn lemma_found_move_keeps_sanity(m: Model, p: spec_fn(Move) -> bool)
    requires
        first_where(legal_moves_of(m), p) is Some,
    ensures
        sane(m) ==> sane(apply_model(m, first_where(legal_moves_of(m), p).unwrap())),
{
    lemma_first_where_member(legal_moves_of(m), p);
    if sane(m) {
        let k = choose|k: int|
            0 <= k < legal_moves_of(m).len() && legal_moves_of(m)[k] == first_where(
                legal_moves_of(m),
                p,
            ).unwrap();
        law_legal_moves_keep_sanity(m, k);
    }
}

proof fn lemma_hash_count_grows(models: Seq<Model>, lo: int, j: int, hi: int, h: u64)
    requires
        lo <= j <= hi,
    ensures
        hash_count(models, lo, hi, h) >= hash_count(models, j, hi, h),
    decreases j - lo,
{
    if lo < j {
        lemma_hash_count_grows(models, lo + 1, j, hi, h);
    }
}

/// A pawn, rook or queen stands here: mate stays possible.
pub open spec fn mating_material(v: Option<Piece>) -> bool {
    v matches Some(p) && (p.kind == PieceKind::Pawn || p.kind == PieceKind::Rook || p.kind
        == PieceKind::Queen)
}

/// A knight or a bishop stands here.
pub open spec fn minor_piece(v: Option<Piece>) -> bool {
    v matches Some(p) && (p.kind == PieceKind::Knight || p.kind == PieceKind::Bishop)
}

/// Knights and bishops, of either color, on the first `n` squares.
pub open spec fn minor_count(board: Seq<Option<Piece>>, n: int) -> nat
    decreases n,
{
    if n <= 0 {
        0nat
    } else {
        minor_count(board, n - 1) + if minor_piece(board[n - 1]) {
            1nat
        } else {
            0nat
        }
    }
}

/// Dead position by material: no pawn, rook or queen on the board, and at
/// most one minor piece in all (bare kings, or a lone knight or bishop).
pub open spec fn dead_by_material(board: Seq<Option<Piece>>) -> bool {
    &&& forall|i: int| 0 <= i < 64 ==> !mating_material(#[trigger] board[i])
    &&& minor_count(board, 64) <= 1
}

proof fn lemma_minor_count_grows(board: Seq<Option<Piece>>, i: int, j: int)
    requires
        0 <= i <= j,
    ensures
        minor_count(board, i) <= minor_count(board, j),
    decreases j - i,
{
    if i < j {
        lemma_minor_count_grows(board, i, j - 1);
    }
}

/// Neither side can possibly deliver mate, by the material on the board.
fn is_insufficient_material(pos: &Position) -> (b: bool)
    requires
        pos.wf(),
    ensures
        b == dead_by_material(pos@.board),
{
    let mut minors: usize = 0;
    let mut i: usize = 0;
    while i < 64
        invariant
            i <= 64,
            pos@.board == pos.mailbox@,
            pos@.board.len() == 64,
            forall|j: int| 0 <= j < i ==> !mating_material(#[trigger] pos@.board[j]),
            minors as int == minor_count(pos@.board, i as int),
            minors <= 1,
        decreases 64 - i,
    {
        if let Some(p) = pos.mailbox[i] {
            match p.kind {
                PieceKind::Pawn | PieceKind::Rook | PieceKind::Queen => {
                    assert(mating_material(pos@.board[i as int]));
                    return false;
                },
                PieceKind::Knight | PieceKind::Bishop => {
                    if minors == 1 {
                        proof {
                            lemma_minor_count_grows(pos@.board, i as int + 1, 64);
                        }
                        return false;
                    }
                    minors = minors + 1;
                },
                PieceKind::King => {},
            }
        }
        i = i + 1;
    }
    true
}

proof fn lemma_minor_count_at_most_one(board: Seq<Option<Piece>>, k: int, n: int)
    requires
        0 <= n,
        forall|i: int| 0 <= i < n && i != k ==> !minor_piece(#[trigger] board[i]),
    ensures
        minor_count(board, n) <= if 0 <= k < n { 1int } else { 0int },
    decreases n,
{
    if n > 0 {
        lemma_minor_count_at_most_one(board, k, n - 1);
    }
}

/// Mate stays possible while a pawn, rook or queen of either color is on
/// the board: such a game is never declared drawn by insufficient material.
pub proof fn law_mating_material_plays_on(models: Seq<Model>, i: int)
    requires
        models.len() > 0,
        0 <= i < 64,
        models.last().board[i] matches Some(p) && (p.kind == PieceKind::Pawn || p.kind
            == PieceKind::Rook || p.kind == PieceKind::Queen),
    ensures
        status_of(models) != GameStatus::InsufficientMaterial,
{
    assert(mating_material(models.last().board[i]));
}

/// Two knights or bishops on the board, of either color, leave mate
/// possible too: such a game is never declared drawn by insufficient
/// material.
pub proof fn law_two_minor_pieces_play_on(models: Seq<Model>, i: int, j: int)
    requires
        models.len() > 0,
        0 <= i < j < 64,
        models.last().board[i] matches Some(p) && (p.kind == PieceKind::Knight || p.kind
            == PieceKind::Bishop),
        models.last().board[j] matches Some(p) && (p.kind == PieceKind::Knight || p.kind
            == PieceKind::Bishop),
    ensures
        status_of(models) != GameStatus::InsufficientMaterial,
{
    let b = models.last().board;
    assert(minor_piece(b[i]) && minor_piece(b[j]));
    lemma_minor_count_grows(b, i + 1, j);
    lemma_minor_count_grows(b, j + 1, 64);
    assert(minor_count(b, i + 1) >= 1);
    assert(minor_count(b, j + 1) >= 2);
}

/// With nothing but the two kings and at most one knight or bishop (on
/// square `k`) left, a game that is not over by mate, stalemate, the
/// fifty-move rule or repetition is drawn by insufficient material.
pub proof fn law_bare_material_is_dead(models: Seq<Model>, k: int)
    requires
        models.len() > 0,
        legal_moves_of(models.last()).len() > 0,
        models.last().halfmove < 100,
        !threefold(models),
        forall|i: int|
            0 <= i < 64 ==> (#[trigger] models.last().board[i] matches Some(p) ==> p.kind
                == PieceKind::King || (i == k && (p.kind == PieceKind::Knight || p.kind
                == PieceKind::Bishop))),
    ensures
        status_of(models) == GameStatus::InsufficientMaterial,
{
    let b = models.last().board;
    assert forall|i: int| 0 <= i < 64 implies !mating_material(#[trigger] b[i]) by {
        assert(b[i] matches Some(p) ==> p.kind == PieceKind::King || (i == k && (p.kind
            == PieceKind::Knight || p.kind == PieceKind::Bishop)));
    }
    assert forall|i: int| 0 <= i < 64 && i != k implies !minor_piece(#[trigger] b[i]) by {
        assert(b[i] matches Some(p) ==> p.kind == PieceKind::King || (i == k && (p.kind
            == PieceKind::Knight || p.kind == PieceKind::Bishop)));
    }
    lemma_minor_count_at_most_one(b, k, 64);
}

} // verus!
