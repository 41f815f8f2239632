//! The part of a FEN that identifies a position.

use vstd::prelude::*;
use crate::error::{ChessError, ChessErrorView};
use crate::text::{
    concat2, decimal, decimal_text, is_word, join, join_texts, split_words, texts, words,
    words_are_words, words_of_join,
};

verus! {

/// Piece placement, side to move, castling rights and en-passant square of a FEN,
/// separated by single spaces: the FEN without the two clocks. `None` for a text with
/// fewer than four fields.
pub open spec fn normalized(fen: Seq<char>) -> Option<Seq<char>> {
    if words(fen).len() < 4 {
        None
    } else {
        Some(join(words(fen).take(4), seq![' ']))
    }
}

/// Normalize a FEN string for caching purposes.
///
/// The cache key drops the halfmove clock and fullmove number, keeping:
///   piece placement, side to move, castling rights, en-passant square.
pub fn normalize_fen(fen: &str) -> (r: Result<String, ChessError>)
    ensures
        match r {
            Ok(key) => normalized(fen@) == Some(key@),
            Err(e) => normalized(fen@) is None && e@ == (ChessErrorView::InvalidFen {
                message: "FEN must contain at least 4 fields, got "@ + decimal(words(fen@).len()),
                fen: fen@,
            }),
        },
{
    let parts = split_words(fen);
    assert(texts(parts@).len() == parts@.len());
    if parts.len() < 4 {
        let count = decimal_text(parts.len() as u64);
        return Err(
            ChessError::InvalidFen {
                message: concat2("FEN must contain at least 4 fields, got ", count.as_str()),
                fen: fen.to_owned(),
            },
        );
    }
    let mut kept: Vec<String> = Vec::new();
    kept.push(parts[0].clone());
    kept.push(parts[1].clone());
    kept.push(parts[2].clone());
    kept.push(parts[3].clone());
    proof {
        reveal_strlit(" ");
        assert(texts(kept@) == words(fen@).take(4));
        assert(" "@ == seq![' ']);
    }
    Ok(join_texts(&kept, " "))
}

/// Two FENs have the same normal form exactly when their first four fields agree: the
/// clocks, further fields and the spacing do not matter, everything else does.
pub proof fn normal_form_is_first_four_fields(a: Seq<char>, b: Seq<char>)
    requires
        words(a).len() >= 4,
        words(b).len() >= 4,
    ensures
        normalized(a) == normalized(b) <==> words(a).take(4) == words(b).take(4),
{
    lemma_four_fields(a);
    lemma_four_fields(b);
}

/// Normalizing a normal form changes nothing.
pub proof fn normalizing_is_idempotent(fen: Seq<char>)
    requires
        words(fen).len() >= 4,
    ensures
        normalized(normalized(fen)->0) == normalized(fen),
{
    lemma_four_fields(fen);
    let key = join(words(fen).take(4), seq![' ']);
    assert(words(key).take(4) == words(fen).take(4));
}

proof fn lemma_four_fields(fen: Seq<char>)
    requires
        words(fen).len() >= 4,
    ensures
        words(join(words(fen).take(4), seq![' '])) == words(fen).take(4),
{
    words_are_words(fen);
    let kept = words(fen).take(4);
    assert forall|k: int| 0 <= k < kept.len() implies is_word(#[trigger] kept[k]) by {
        assert(kept[k] == words(fen)[k]);
    }
    words_of_join(kept);
}

/// The normal form is the first four fields with one space between them; a text with fewer
/// fields has none.
pub proof fn normal_form_in_words(fen: Seq<char>)
    ensures
        words(fen).len() < 4 <==> normalized(fen) is None,
        words(fen).len() >= 4 ==> normalized(fen) == Some(
            words(fen)[0] + seq![' '] + words(fen)[1] + seq![' '] + words(fen)[2] + seq![' ']
                + words(fen)[3],
        ),
{
    if words(fen).len() >= 4 {
        let kept = words(fen).take(4);
        assert(kept.drop_last().drop_last().drop_last() == seq![words(fen)[0]]);
        reveal_with_fuel(join, 5);
        assert(join(kept, seq![' ']) == words(fen)[0] + seq![' '] + words(fen)[1] + seq![' ']
            + words(fen)[2] + seq![' '] + words(fen)[3]);
    }
}

} // verus!
