//! The persisted tile-map format: a JSON list of tile records
//!
//! ```text
//! [
//!   {"pos":{"x":20.0,"y":20.0},"source":{"x":0.0,"y":0.0,"w":0.0,"h":0.0},"tile_type":{"Floor":1}},
//!   ...
//! ]
//! ```
//!
//! one record per line. Coordinates are written with a trailing `.0`, the
//! way an integral float serializes; the variant payload is written bare.
//! The reader skips whitespace between tokens, so maps written with other
//! layouts of the same schema load too. Saving and then loading a tile list
//! reproduces it exactly; the proof is `lemma_tiles_round_trip`.
use vstd::prelude::*;

verus! {

use crate::tile::{Tile, TileType, SpriteRect};
use crate::geometry::Vec2i;

/// Why a persisted map failed to parse: `Syntax` for text that does not
/// match the schema's shape, `Data` for well-shaped text whose values
/// cannot be represented (an unknown tile kind, a number out of range, or
/// a lossy fraction).
#[derive(Clone, Copy, PartialEq, Eq, Structural, Debug)]
pub enum LoadError {
    Syntax,
    Data,
}

pub open spec fn spec_is_ws(b: u8) -> bool {
    b == 32 || b == 10 || b == 13 || b == 9
}

pub open spec fn spec_is_digit(b: u8) -> bool {
    48 <= b <= 57
}

/// The input with its leading whitespace removed.
pub open spec fn spec_skip_ws(s: Seq<u8>) -> Seq<u8>
    decreases s.len(),
{
    if s.len() > 0 && spec_is_ws(s[0]) {
        spec_skip_ws(s.drop_first())
    } else {
        s
    }
}

/// Skipping whitespace swallows any whitespace-only prefix.
pub proof fn lemma_skip_ws_concat(w: Seq<u8>, s: Seq<u8>)
    requires
        forall|i: int| 0 <= i < w.len() ==> spec_is_ws(#[trigger] w[i]),
    ensures
        spec_skip_ws(w + s) == spec_skip_ws(s),
    decreases w.len(),
{
    if w.len() == 0 {
        assert(w + s =~= s);
    } else {
        assert((w + s)[0] == w[0]);
        assert((w + s).drop_first() =~= w.drop_first() + s);
        lemma_skip_ws_concat(w.drop_first(), s);
    }
}

/// Skipping whitespace is the identity on input that starts with none.
pub proof fn lemma_skip_ws_noop(s: Seq<u8>)
    requires
        s.len() == 0 || !spec_is_ws(s[0]),
    ensures
        spec_skip_ws(s) == s,
{
}

/// The decimal digits of `n`, most significant first.
pub open spec fn spec_digits(n: nat) -> Seq<u8>
    decreases n,
{
    if n < 10 {
        seq![(48 + n) as u8]
    } else {
        spec_digits(n / 10).push((48 + n % 10) as u8)
    }
}

/// A signed integer in decimal.
pub open spec fn spec_int_bytes(n: int) -> Seq<u8> {
    if n < 0 {
        seq![45u8] + spec_digits((-n) as nat)
    } else {
        spec_digits(n as nat)
    }
}

proof fn lemma_digits_are_digits(n: nat)
    ensures
        spec_digits(n).len() >= 1,
        forall|i: int| 0 <= i < spec_digits(n).len() ==> spec_is_digit(#[trigger] spec_digits(n)[i]),
    decreases n,
{
    if n >= 10 {
        lemma_digits_are_digits(n / 10);
        let d = spec_digits(n / 10);
        assert forall|i: int|
            0 <= i < spec_digits(n).len() implies spec_is_digit(#[trigger] spec_digits(n)[i]) by {
            if i < d.len() {
                assert(spec_digits(n)[i] == d[i]);
            } else {
                assert(spec_digits(n)[i] == (48 + n % 10) as u8);
            }
        }
    }
}

/// Greedy digit accumulation with an overflow cap: consumes leading digits,
/// folding them onto `acc`; fails (`None`) if the value would pass the cap.
pub open spec fn spec_eat_digits(s: Seq<u8>, acc: nat) -> Option<(nat, Seq<u8>)>
    decreases s.len(),
{
    if s.len() > 0 && spec_is_digit(s[0]) {
        let acc2 = (acc * 10 + (s[0] - 48)) as nat;
        if acc2 > 0xFFFF_FFFF {
            None
        } else {
            spec_eat_digits(s.drop_first(), acc2)
        }
    } else {
        Some((acc, s))
    }
}

/// Eating the digit bytes of `n` from the front of the input recovers `n`.
proof fn lemma_eat_digits_of(n: nat, rest: Seq<u8>)
    requires
        rest.len() == 0 || !spec_is_digit(rest[0]),
        n <= 0xFFFF_FFFF,
    ensures
        spec_eat_digits(spec_digits(n) + rest, 0) == Some((n, rest)),
{
    lemma_digits_are_digits(n);
    lemma_eat_digits_general(spec_digits(n), rest, 0);
    lemma_fold_prefix(n);
}

/// Digit folding over an arbitrary digit sequence.
pub open spec fn spec_fold_digits(acc: nat, d: Seq<u8>) -> Option<nat>
    decreases d.len(),
{
    if d.len() == 0 {
        Some(acc)
    } else {
        let acc2 = (acc * 10 + (d[0] - 48)) as nat;
        if acc2 > 0xFFFF_FFFF {
            None
        } else {
            spec_fold_digits(acc2, d.drop_first())
        }
    }
}

/// Eating digits from `d + rest` folds exactly `d` when `rest` starts with
/// no digit.
proof fn lemma_eat_digits_general(d: Seq<u8>, rest: Seq<u8>, acc: nat)
    requires
        forall|i: int| 0 <= i < d.len() ==> spec_is_digit(#[trigger] d[i]),
        rest.len() == 0 || !spec_is_digit(rest[0]),
    ensures
        spec_eat_digits(d + rest, acc) == match spec_fold_digits(acc, d) {
            Some(v) => Some((v, rest)),
            None => None::<(nat, Seq<u8>)>,
        },
    decreases d.len(),
{
    if d.len() == 0 {
        assert(d + rest =~= rest);
    } else {
        assert((d + rest)[0] == d[0]);
        assert((d + rest).drop_first() =~= d.drop_first() + rest);
        let acc2 = (acc * 10 + (d[0] - 48)) as nat;
        if acc2 <= 0xFFFF_FFFF {
            lemma_eat_digits_general(d.drop_first(), rest, acc2);
        }
    }
}

/// Folding the digits of `n` onto zero yields `n` itself.
proof fn lemma_fold_prefix(n: nat)
    requires
        n <= 0xFFFF_FFFF,
    ensures
        spec_fold_digits(0, spec_digits(n)) == Some(n),
    decreases n,
{
    if n < 10 {
        assert(spec_digits(n) =~= seq![(48 + n) as u8]);
        assert(spec_digits(n).drop_first() =~= Seq::<u8>::empty());
        assert(spec_fold_digits(0, spec_digits(n)) == Some(n)) by {
            reveal_with_fuel(spec_fold_digits, 3);
        }
    } else {
        lemma_fold_prefix(n / 10);
        lemma_digits_are_digits(n / 10);
        lemma_fold_append(0, spec_digits(n / 10), (48 + n % 10) as u8);
        assert(10 * (n / 10) + n % 10 == n) by {
            vstd::arithmetic::div_mod::lemma_fundamental_div_mod(n as int, 10);
        }
        assert((n / 10) * 10 == 10 * (n / 10)) by (nonlinear_arith);
        assert((n / 10) * 10 + (n % 10) <= 0xFFFF_FFFF);
        assert(spec_push_digit(Some((n / 10) as nat), (48 + n % 10) as u8) == Some(n));
    }
}

/// One more digit on the end of a fold.
pub open spec fn spec_push_digit(o: Option<nat>, b: u8) -> Option<nat> {
    match o {
        Some(v) => {
            let acc2 = (v * 10 + (b - 48)) as nat;
            if acc2 > 0xFFFF_FFFF {
                None
            } else {
                Some(acc2)
            }
        },
        None => None,
    }
}

/// Appending one digit multiplies the folded value by ten and adds it.
proof fn lemma_fold_append(acc: nat, d: Seq<u8>, b: u8)
    requires
        forall|i: int| 0 <= i < d.len() ==> spec_is_digit(#[trigger] d[i]),
        spec_is_digit(b),
    ensures
        spec_fold_digits(acc, d.push(b)) == spec_push_digit(spec_fold_digits(acc, d), b),
    decreases d.len(),
{
    if d.len() == 0 {
        assert(d.push(b).len() == 1);
        assert(d.push(b)[0] == b);
        assert(d.push(b).drop_first() =~= Seq::<u8>::empty());
        assert(spec_fold_digits(acc, d) == Some(acc));
        let acc2 = (acc * 10 + (b - 48)) as nat;
        if acc2 > 0xFFFF_FFFF {
            assert(spec_fold_digits(acc, d.push(b)) is None);
        } else {
            assert(spec_fold_digits(acc, d.push(b)) == spec_fold_digits(
                acc2,
                d.push(b).drop_first(),
            ));
            assert(spec_fold_digits(acc2, d.push(b).drop_first()) == Some(acc2));
        }
    } else {
        assert(d.push(b).len() == d.len() + 1);
        assert(d.push(b)[0] == d[0]);
        assert(d.push(b).drop_first() =~= d.drop_first().push(b));
        let acc2 = (acc * 10 + (d[0] - 48)) as nat;
        if acc2 <= 0xFFFF_FFFF {
            lemma_fold_append(acc2, d.drop_first(), b);
            assert(spec_fold_digits(acc, d.push(b)) == spec_fold_digits(
                acc2,
                d.drop_first().push(b),
            ));
            assert(spec_fold_digits(acc, d) == spec_fold_digits(acc2, d.drop_first()));
        } else {
            assert(spec_fold_digits(acc, d.push(b)) is None);
            assert(spec_fold_digits(acc, d) is None);
        }
    }
}

// ---------------------------------------------------------------------
// Token literals of the schema, as byte sequences (quotes included).
// ---------------------------------------------------------------------
pub open spec fn lq_pos() -> Seq<u8> {
    seq![34u8, 112u8, 111u8, 115u8, 34u8]
}

pub open spec fn lq_source() -> Seq<u8> {
    seq![34u8, 115u8, 111u8, 117u8, 114u8, 99u8, 101u8, 34u8]
}

pub open spec fn lq_tile_type() -> Seq<u8> {
    seq![34u8, 116u8, 105u8, 108u8, 101u8, 95u8, 116u8, 121u8, 112u8, 101u8, 34u8]
}

pub open spec fn lq_x() -> Seq<u8> {
    seq![34u8, 120u8, 34u8]
}

pub open spec fn lq_y() -> Seq<u8> {
    seq![34u8, 121u8, 34u8]
}

pub open spec fn lq_w() -> Seq<u8> {
    seq![34u8, 119u8, 34u8]
}

pub open spec fn lq_h() -> Seq<u8> {
    seq![34u8, 104u8, 34u8]
}

pub open spec fn lq_empty() -> Seq<u8> {
    seq![34u8, 69u8, 109u8, 112u8, 116u8, 121u8, 34u8]
}

pub open spec fn lq_floor() -> Seq<u8> {
    seq![34u8, 70u8, 108u8, 111u8, 111u8, 114u8, 34u8]
}

pub open spec fn lq_wall() -> Seq<u8> {
    seq![34u8, 87u8, 97u8, 108u8, 108u8, 34u8]
}

pub open spec fn lq_player_spawn() -> Seq<u8> {
    seq![34u8, 80u8, 108u8, 97u8, 121u8, 101u8, 114u8, 83u8, 112u8, 97u8, 119u8, 110u8, 34u8]
}

pub open spec fn spec_variant_lit(t: TileType) -> Seq<u8> {
    match t {
        TileType::Empty(_) => lq_empty(),
        TileType::Floor(_) => lq_floor(),
        TileType::Wall(_) => lq_wall(),
        TileType::PlayerSpawn(_) => lq_player_spawn(),
    }
}

pub open spec fn spec_payload(t: TileType) -> int {
    match t {
        TileType::Empty(n) => n as int,
        TileType::Floor(n) => n as int,
        TileType::Wall(n) => n as int,
        TileType::PlayerSpawn(n) => n as int,
    }
}

// ---------------------------------------------------------------------
// The emitted bytes, written with an explicit continuation `k` (the text
// that follows), so that the text peels off token by token.
// ---------------------------------------------------------------------
#[verifier::opaque]
pub open spec fn spec_int_at(n: int, k: Seq<u8>) -> Seq<u8> {
    spec_int_bytes(n) + k
}

#[verifier::opaque]
pub open spec fn spec_coord_at(n: int, k: Seq<u8>) -> Seq<u8> {
    spec_int_bytes(n) + (seq![46u8, 48u8] + k)
}

#[verifier::opaque]
pub open spec fn spec_pair_at(lit: Seq<u8>, v: int, k: Seq<u8>) -> Seq<u8> {
    lit + (seq![58u8] + spec_coord_at(v, k))
}

#[verifier::opaque]
pub open spec fn spec_pos_obj_at(p: Vec2i, k: Seq<u8>) -> Seq<u8> {
    seq![123u8] + spec_pair_at(
        lq_x(),
        p.x as int,
        seq![44u8] + spec_pair_at(lq_y(), p.y as int, seq![125u8] + k),
    )
}

#[verifier::opaque]
pub open spec fn spec_source_obj_at(r: SpriteRect, k: Seq<u8>) -> Seq<u8> {
    seq![123u8] + spec_pair_at(
        lq_x(),
        r.x as int,
        seq![44u8] + spec_pair_at(
            lq_y(),
            r.y as int,
            seq![44u8] + spec_pair_at(
                lq_w(),
                r.w as int,
                seq![44u8] + spec_pair_at(lq_h(), r.h as int, seq![125u8] + k),
            ),
        ),
    )
}

#[verifier::opaque]
pub open spec fn spec_tt_obj_at(t: TileType, k: Seq<u8>) -> Seq<u8> {
    seq![123u8] + (spec_variant_lit(t) + (seq![58u8] + spec_int_at(
        spec_payload(t),
        seq![125u8] + k,
    )))
}

#[verifier::opaque]
pub open spec fn spec_tile_at(t: Tile, k: Seq<u8>) -> Seq<u8> {
    seq![123u8] + (lq_pos() + (seq![58u8] + spec_pos_obj_at(
        t.pos,
        seq![44u8] + (lq_source() + (seq![58u8] + spec_source_obj_at(
            t.source,
            seq![44u8] + (lq_tile_type() + (seq![58u8] + spec_tt_obj_at(
                t.tile_type,
                seq![125u8] + k,
            ))),
        ))),
    )))
}

/// The records after the first, one per line, separated by commas; the
/// closing `]` follows the final newline.
pub open spec fn spec_items_at(ts: Seq<Tile>, k: Seq<u8>) -> Seq<u8>
    decreases ts.len(),
{
    if ts.len() == 0 {
        k
    } else {
        seq![10u8, 32u8, 32u8] + spec_tile_at(
            ts[0],
            if ts.len() > 1 {
                seq![44u8] + spec_items_at(ts.drop_first(), k)
            } else {
                seq![10u8] + k
            },
        )
    }
}

/// The whole persisted document for a tile list.
pub open spec fn spec_tiles_bytes(ts: Seq<Tile>) -> Seq<u8> {
    if ts.len() == 0 {
        seq![91u8, 93u8]
    } else {
        seq![91u8] + spec_items_at(ts, seq![93u8])
    }
}

// ---------------------------------------------------------------------
// The parser, over byte sequences. Whitespace is skipped before every
// token, so differently laid out text of the same schema parses too.
// ---------------------------------------------------------------------
pub open spec fn spec_parse_byte(s: Seq<u8>, b: u8) -> Result<Seq<u8>, LoadError> {
    let s1 = spec_skip_ws(s);
    if s1.len() > 0 && s1[0] == b {
        Ok(s1.drop_first())
    } else {
        Err(LoadError::Syntax)
    }
}

pub open spec fn spec_parse_lit(s: Seq<u8>, lit: Seq<u8>) -> Result<Seq<u8>, LoadError> {
    let s1 = spec_skip_ws(s);
    if lit.len() <= s1.len() && s1.subrange(0, lit.len() as int) == lit {
        Ok(s1.skip(lit.len() as int))
    } else {
        Err(LoadError::Syntax)
    }
}

/// A run of digits that must all be zero (a lossless fraction); a nonzero
/// digit in the run is a data error.
pub open spec fn spec_eat_zeros(s: Seq<u8>) -> Result<Seq<u8>, LoadError>
    decreases s.len(),
{
    if s.len() > 0 && spec_is_digit(s[0]) {
        if s[0] != 48 {
            Err(LoadError::Data)
        } else {
            spec_eat_zeros(s.drop_first())
        }
    } else {
        Ok(s)
    }
}

/// A number: optional minus, digits, and an optional all-zero fraction.
/// Magnitudes past the accumulator cap and values outside `i32` are data
/// errors; a malformed shape is a syntax error.
pub open spec fn spec_parse_number(s: Seq<u8>) -> Result<(int, Seq<u8>), LoadError> {
    let s1 = spec_skip_ws(s);
    let neg = s1.len() > 0 && s1[0] == 45;
    let s2 = if neg {
        s1.drop_first()
    } else {
        s1
    };
    if s2.len() == 0 || !spec_is_digit(s2[0]) {
        Err(LoadError::Syntax)
    } else {
        match spec_eat_digits(s2, 0) {
            None => Err(LoadError::Data),
            Some((mag, s3)) => {
                let fr = if s3.len() > 0 && s3[0] == 46 {
                    let s4 = s3.drop_first();
                    if s4.len() == 0 || !spec_is_digit(s4[0]) {
                        Err(LoadError::Syntax)
                    } else {
                        spec_eat_zeros(s4)
                    }
                } else {
                    Ok(s3)
                };
                match fr {
                    Err(e) => Err(e),
                    Ok(s5) => {
                        let v = if neg {
                            -(mag as int)
                        } else {
                            mag as int
                        };
                        if v < -2147483648 || v > 2147483647 {
                            Err(LoadError::Data)
                        } else {
                            Ok((v, s5))
                        }
                    },
                }
            },
        }
    }
}

/// The tail of a `"tile_type"` object once the variant name is known:
/// colon, payload, and the two closing braces (of the kind object and of
/// the record).
pub open spec fn spec_parse_tt_tail(s: Seq<u8>, which: int) -> Result<(TileType, Seq<u8>), LoadError> {
    match spec_parse_byte(s, 58) {
        Err(e) => Err(e),
        Ok(s) => match spec_parse_number(s) {
            Err(e) => Err(e),
            Ok((n, s)) => match spec_parse_byte(s, 125) {
                Err(e) => Err(e),
                Ok(s) => match spec_parse_byte(s, 125) {
                    Err(e) => Err(e),
                    Ok(s) => {
                        let tt = if which == 0 {
                            TileType::Empty(n as i32)
                        } else if which == 1 {
                            TileType::Floor(n as i32)
                        } else if which == 2 {
                            TileType::Wall(n as i32)
                        } else {
                            TileType::PlayerSpawn(n as i32)
                        };
                        Ok((tt, s))
                    },
                },
            },
        },
    }
}

/// One `"name": number` pair inside `pos` or `source`.
pub open spec fn spec_parse_pair(s: Seq<u8>, lit: Seq<u8>) -> Result<(int, Seq<u8>), LoadError> {
    match spec_parse_lit(s, lit) {
        Err(e) => Err(e),
        Ok(s) => match spec_parse_byte(s, 58) {
            Err(e) => Err(e),
            Ok(s) => spec_parse_number(s),
        },
    }
}

/// One tile record.
#[verifier::opaque]
pub open spec fn spec_parse_tile(s: Seq<u8>) -> Result<(Tile, Seq<u8>), LoadError> {
    match spec_parse_byte(s, 123) {
        Err(e) => Err(e),
        Ok(s) => match spec_parse_lit(s, lq_pos()) {
            Err(e) => Err(e),
            Ok(s) => match spec_parse_byte(s, 58) {
                Err(e) => Err(e),
                Ok(s) => match spec_parse_byte(s, 123) {
                    Err(e) => Err(e),
                    Ok(s) => match spec_parse_pair(s, lq_x()) {
                        Err(e) => Err(e),
                        Ok((px, s)) => match spec_parse_byte(s, 44) {
                            Err(e) => Err(e),
                            Ok(s) => match spec_parse_pair(s, lq_y()) {
                                Err(e) => Err(e),
                                Ok((py, s)) => match spec_parse_byte(s, 125) {
                                    Err(e) => Err(e),
                                    Ok(s) => match spec_parse_byte(s, 44) {
                                        Err(e) => Err(e),
                                        Ok(s) => match spec_parse_lit(s, lq_source()) {
                                            Err(e) => Err(e),
                                            Ok(s) => match spec_parse_byte(s, 58) {
                                                Err(e) => Err(e),
                                                Ok(s) => match spec_parse_byte(s, 123) {
                                                    Err(e) => Err(e),
                                                    Ok(s) => match spec_parse_source_fields(s) {
                                                        Err(e) => Err(e),
                                                        Ok((src, s)) => match spec_parse_tt(s) {
                                                            Err(e) => Err(e),
                                                            Ok((tt, s)) => Ok(
                                                                (
                                                                    Tile {
                                                                        pos: Vec2i {
                                                                            x: px as i32,
                                                                            y: py as i32,
                                                                        },
                                                                        source: src,
                                                                        tile_type: tt,
                                                                    },
                                                                    s,
                                                                ),
                                                            ),
                                                        },
                                                    },
                                                },
                                            },
                                        },
                                    },
                                },
                            },
                        },
                    },
                },
            },
        },
    }
}

/// The four coordinate pairs of `source` and its closing brace.
pub open spec fn spec_parse_source_fields(s: Seq<u8>) -> Result<(SpriteRect, Seq<u8>), LoadError> {
    match spec_parse_pair(s, lq_x()) {
        Err(e) => Err(e),
        Ok((sx, s)) => match spec_parse_byte(s, 44) {
            Err(e) => Err(e),
            Ok(s) => match spec_parse_pair(s, lq_y()) {
                Err(e) => Err(e),
                Ok((sy, s)) => match spec_parse_byte(s, 44) {
                    Err(e) => Err(e),
                    Ok(s) => match spec_parse_pair(s, lq_w()) {
                        Err(e) => Err(e),
                        Ok((sw, s)) => match spec_parse_byte(s, 44) {
                            Err(e) => Err(e),
                            Ok(s) => match spec_parse_pair(s, lq_h()) {
                                Err(e) => Err(e),
                                Ok((sh, s)) => match spec_parse_byte(s, 125) {
                                    Err(e) => Err(e),
                                    Ok(s) => Ok(
                                        (
                                            SpriteRect {
                                                x: sx as i32,
                                                y: sy as i32,
                                                w: sw as i32,
                                                h: sh as i32,
                                            },
                                            s,
                                        ),
                                    ),
                                },
                            },
                        },
                    },
                },
            },
        },
    }
}

/// The `, "tile_type": { "Name": payload } }` tail of a record, variant
/// names tried in declaration order; an unknown name is a data error.
pub open spec fn spec_parse_tt(s: Seq<u8>) -> Result<(TileType, Seq<u8>), LoadError> {
    match spec_parse_byte(s, 44) {
        Err(e) => Err(e),
        Ok(s) => match spec_parse_lit(s, lq_tile_type()) {
            Err(e) => Err(e),
            Ok(s) => match spec_parse_byte(s, 58) {
                Err(e) => Err(e),
                Ok(s) => match spec_parse_byte(s, 123) {
                    Err(e) => Err(e),
                    Ok(s) => match spec_parse_lit(s, lq_empty()) {
                        Ok(s2) => spec_parse_tt_tail(s2, 0),
                        Err(_) => match spec_parse_lit(s, lq_floor()) {
                            Ok(s2) => spec_parse_tt_tail(s2, 1),
                            Err(_) => match spec_parse_lit(s, lq_wall()) {
                                Ok(s2) => spec_parse_tt_tail(s2, 2),
                                Err(_) => match spec_parse_lit(s, lq_player_spawn()) {
                                    Ok(s2) => spec_parse_tt_tail(s2, 3),
                                    Err(_) => Err(LoadError::Data),
                                },
                            },
                        },
                    },
                },
            },
        },
    }
}

/// The records of a non-empty list: a record, then either a comma and more
/// records or the closing bracket.
pub open spec fn spec_parse_tiles_rest(s: Seq<u8>, fuel: nat) -> Result<
    (Seq<Tile>, Seq<u8>),
    LoadError,
>
    decreases fuel,
{
    if fuel == 0 {
        Err(LoadError::Syntax)
    } else {
        match spec_parse_tile(s) {
            Err(e) => Err(e),
            Ok((t, s)) => match spec_parse_byte(s, 44) {
                Ok(s2) => match spec_parse_tiles_rest(s2, (fuel - 1) as nat) {
                    Err(e) => Err(e),
                    Ok((ts, s3)) => Ok((seq![t] + ts, s3)),
                },
                Err(_) => match spec_parse_byte(s, 93) {
                    Ok(s2) => Ok((seq![t], s2)),
                    Err(e) => Err(e),
                },
            },
        }
    }
}

/// The whole document: a bracketed list of records and nothing after it
/// but whitespace.
pub open spec fn spec_load(s: Seq<u8>) -> Result<Seq<Tile>, LoadError> {
    match spec_parse_byte(s, 91) {
        Err(e) => Err(e),
        Ok(s1) => match spec_parse_byte(s1, 93) {
            Ok(s2) => if spec_skip_ws(s2).len() == 0 {
                Ok(Seq::<Tile>::empty())
            } else {
                Err(LoadError::Syntax)
            },
            Err(_) => match spec_parse_tiles_rest(s1, s1.len()) {
                Err(e) => Err(e),
                Ok((ts, s2)) => if spec_skip_ws(s2).len() == 0 {
                    Ok(ts)
                } else {
                    Err(LoadError::Syntax)
                },
            },
        },
    }
}

// ---------------------------------------------------------------------
// Round trip: parsing what was emitted yields the original records.
// ---------------------------------------------------------------------
proof fn lemma_parse_byte_at(b: u8, rest: Seq<u8>)
    requires
        !spec_is_ws(b),
    ensures
        spec_parse_byte(seq![b] + rest, b) == Ok::<Seq<u8>, LoadError>(rest),
{
    let s = seq![b] + rest;
    assert(s[0] == b);
    lemma_skip_ws_noop(s);
    assert(s.drop_first() =~= rest);
}

proof fn lemma_parse_lit_at(lit: Seq<u8>, rest: Seq<u8>)
    requires
        lit.len() > 0,
        !spec_is_ws(lit[0]),
    ensures
        spec_parse_lit(lit + rest, lit) == Ok::<Seq<u8>, LoadError>(rest),
{
    let s = lit + rest;
    assert(s[0] == lit[0]);
    lemma_skip_ws_noop(s);
    assert(s.subrange(0, lit.len() as int) =~= lit);
    assert(s.skip(lit.len() as int) =~= rest);
}

proof fn lemma_parse_lit_mismatch(a: Seq<u8>, rest: Seq<u8>, b: Seq<u8>, idx: int)
    requires
        a.len() > 0,
        !spec_is_ws(a[0]),
        0 <= idx < a.len(),
        idx < b.len(),
        a[idx] != b[idx],
    ensures
        spec_parse_lit(a + rest, b) is Err,
{
    let s = a + rest;
    assert(s[0] == a[0]);
    lemma_skip_ws_noop(s);
    if b.len() <= s.len() {
        assert(s.subrange(0, b.len() as int)[idx] == s[idx]);
        assert(s[idx] == a[idx]);
    }
}

proof fn lemma_int_bytes_len(n: int)
    ensures
        spec_int_bytes(n).len() >= 1,
        !spec_is_ws(spec_int_bytes(n)[0]),
        spec_int_bytes(n)[0] != 34,
{
    if n < 0 {
        lemma_digits_are_digits((-n) as nat);
        assert(spec_int_bytes(n)[0] == 45);
    } else {
        lemma_digits_are_digits(n as nat);
        assert(spec_int_bytes(n)[0] == spec_digits(n as nat)[0]);
    }
}

proof fn lemma_parse_number_at(n: int, frac: bool, k: Seq<u8>)
    requires
        -2147483648 <= n <= 2147483647,
        k.len() > 0,
        !spec_is_digit(k[0]),
        frac || k[0] != 46,
    ensures
        frac ==> spec_parse_number(spec_coord_at(n, k)) == Ok::<(int, Seq<u8>), LoadError>((n, k)),
        !frac ==> spec_parse_number(spec_int_at(n, k)) == Ok::<(int, Seq<u8>), LoadError>((n, k)),
{
    reveal(spec_coord_at);
    reveal(spec_int_at);
    let tail = if frac {
        seq![46u8, 48u8] + k
    } else {
        k
    };
    let s = spec_int_bytes(n) + tail;
    assert(spec_coord_at(n, k) == s || !frac);
    assert(tail.len() > 0 && !spec_is_digit(tail[0]));
    let mag: nat = if n < 0 {
        (-n) as nat
    } else {
        n as nat
    };
    lemma_digits_are_digits(mag);
    if n < 0 {
        assert(s[0] == 45);
        lemma_skip_ws_noop(s);
        assert(s.drop_first() =~= spec_digits(mag) + tail);
        lemma_eat_digits_of(mag, tail);
    } else {
        assert(s[0] == spec_digits(mag)[0]);
        assert(spec_is_digit(s[0]));
        lemma_skip_ws_noop(s);
        assert(s =~= spec_digits(mag) + tail);
        lemma_eat_digits_of(mag, tail);
    }
    if frac {
        assert(tail[0] == 46);
        assert(tail.drop_first() =~= seq![48u8] + k);
        assert((seq![48u8] + k)[0] == 48);
        assert((seq![48u8] + k).drop_first() =~= k);
        assert(spec_eat_zeros(seq![48u8] + k) == Ok::<Seq<u8>, LoadError>(k)) by {
            reveal_with_fuel(spec_eat_zeros, 3);
        }
    }
}

proof fn lemma_parse_pair_at(lit: Seq<u8>, v: int, k: Seq<u8>)
    requires
        lit.len() > 0,
        !spec_is_ws(lit[0]),
        -2147483648 <= v <= 2147483647,
        k.len() > 0,
        !spec_is_digit(k[0]),
    ensures
        spec_parse_pair(spec_pair_at(lit, v, k), lit) == Ok::<(int, Seq<u8>), LoadError>((v, k)),
{
    reveal(spec_pair_at);
    lemma_parse_lit_at(lit, seq![58u8] + spec_coord_at(v, k));
    lemma_parse_byte_at(58, spec_coord_at(v, k));
    lemma_parse_number_at(v, true, k);
}

proof fn lemma_parse_source_at(r: SpriteRect, k: Seq<u8>)
    requires
        k.len() > 0,
        !spec_is_digit(k[0]),
    ensures
        ({
            let body = spec_pair_at(
                lq_x(),
                r.x as int,
                seq![44u8] + spec_pair_at(
                    lq_y(),
                    r.y as int,
                    seq![44u8] + spec_pair_at(
                        lq_w(),
                        r.w as int,
                        seq![44u8] + spec_pair_at(lq_h(), r.h as int, seq![125u8] + k),
                    ),
                ),
            );
            spec_parse_source_fields(body) == Ok::<(SpriteRect, Seq<u8>), LoadError>((r, k))
        }),
{
    let k4 = seq![125u8] + k;
    let p4 = spec_pair_at(lq_h(), r.h as int, k4);
    let k3 = seq![44u8] + p4;
    let p3 = spec_pair_at(lq_w(), r.w as int, k3);
    let k2 = seq![44u8] + p3;
    let p2 = spec_pair_at(lq_y(), r.y as int, k2);
    let k1 = seq![44u8] + p2;
    lemma_parse_pair_at(lq_x(), r.x as int, k1);
    lemma_parse_byte_at(44, p2);
    lemma_parse_pair_at(lq_y(), r.y as int, k2);
    lemma_parse_byte_at(44, p3);
    lemma_parse_pair_at(lq_w(), r.w as int, k3);
    lemma_parse_byte_at(44, p4);
    lemma_parse_pair_at(lq_h(), r.h as int, k4);
    lemma_parse_byte_at(125, k);
}

proof fn lemma_parse_tt_at(t: TileType, k: Seq<u8>)
    ensures
        spec_parse_tt(
            seq![44u8] + (lq_tile_type() + (seq![58u8] + spec_tt_obj_at(t, seq![125u8] + k))),
        ) == Ok::<(TileType, Seq<u8>), LoadError>((t, k)),
{
    reveal(spec_tt_obj_at);
    reveal(spec_int_at);
    let obj = spec_tt_obj_at(t, seq![125u8] + k);
    lemma_parse_byte_at(44, lq_tile_type() + (seq![58u8] + obj));
    lemma_parse_lit_at(lq_tile_type(), seq![58u8] + obj);
    lemma_parse_byte_at(58, obj);
    let name = spec_variant_lit(t);
    let after_name = seq![58u8] + spec_int_at(spec_payload(t), seq![125u8] + (seq![125u8] + k));
    assert(obj =~= seq![123u8] + (name + after_name));
    lemma_parse_byte_at(123, name + after_name);
    lemma_parse_lit_at(name, after_name);
    // The variant names differ pairwise in their second byte, so only the
    // emitted name matches.
    match t {
        TileType::Empty(_) => {
        },
        TileType::Floor(_) => {
            lemma_parse_lit_mismatch(name, after_name, lq_empty(), 1);
        },
        TileType::Wall(_) => {
            lemma_parse_lit_mismatch(name, after_name, lq_empty(), 1);
            lemma_parse_lit_mismatch(name, after_name, lq_floor(), 1);
        },
        TileType::PlayerSpawn(_) => {
            lemma_parse_lit_mismatch(name, after_name, lq_empty(), 1);
            lemma_parse_lit_mismatch(name, after_name, lq_floor(), 1);
            lemma_parse_lit_mismatch(name, after_name, lq_wall(), 1);
        },
    }
    let pay = spec_int_at(spec_payload(t), seq![125u8] + (seq![125u8] + k));
    lemma_parse_byte_at(58, pay);
    lemma_parse_number_at(spec_payload(t), false, seq![125u8] + (seq![125u8] + k));
    lemma_parse_byte_at(125, seq![125u8] + k);
    lemma_parse_byte_at(125, k);
}

proof fn lemma_parse_tile_at(t: Tile, k: Seq<u8>)
    ensures
        spec_parse_tile(spec_tile_at(t, k)) == Ok::<(Tile, Seq<u8>), LoadError>((t, k)),
{
    reveal(spec_parse_tile);
    reveal(spec_tile_at);
    reveal(spec_pos_obj_at);
    reveal(spec_source_obj_at);
    let tt_part = seq![44u8] + (lq_tile_type() + (seq![58u8] + spec_tt_obj_at(
        t.tile_type,
        seq![125u8] + k,
    )));
    let src_obj = spec_source_obj_at(t.source, tt_part);
    let src_part = seq![44u8] + (lq_source() + (seq![58u8] + src_obj));
    let pos_obj = spec_pos_obj_at(t.pos, src_part);
    lemma_parse_byte_at(123, lq_pos() + (seq![58u8] + pos_obj));
    lemma_parse_lit_at(lq_pos(), seq![58u8] + pos_obj);
    lemma_parse_byte_at(58, pos_obj);
    // the pos object
    let ky = seq![125u8] + src_part;
    let py = spec_pair_at(lq_y(), t.pos.y as int, ky);
    let kx = seq![44u8] + py;
    assert(pos_obj =~= seq![123u8] + spec_pair_at(lq_x(), t.pos.x as int, kx));
    lemma_parse_byte_at(123, spec_pair_at(lq_x(), t.pos.x as int, kx));
    lemma_parse_pair_at(lq_x(), t.pos.x as int, kx);
    lemma_parse_byte_at(44, py);
    lemma_parse_pair_at(lq_y(), t.pos.y as int, ky);
    lemma_parse_byte_at(125, src_part);
    // the source object
    lemma_parse_byte_at(44, lq_source() + (seq![58u8] + src_obj));
    lemma_parse_lit_at(lq_source(), seq![58u8] + src_obj);
    lemma_parse_byte_at(58, src_obj);
    let src_body = spec_pair_at(
        lq_x(),
        t.source.x as int,
        seq![44u8] + spec_pair_at(
            lq_y(),
            t.source.y as int,
            seq![44u8] + spec_pair_at(
                lq_w(),
                t.source.w as int,
                seq![44u8] + spec_pair_at(lq_h(), t.source.h as int, seq![125u8] + tt_part),
            ),
        ),
    );
    assert(src_obj =~= seq![123u8] + src_body);
    lemma_parse_byte_at(123, src_body);
    lemma_parse_source_at(t.source, tt_part);
    // the kind object and the record's closing brace
    lemma_parse_tt_at(t.tile_type, k);
}

proof fn lemma_tile_at_len(t: Tile, k: Seq<u8>)
    ensures
        spec_tile_at(t, k).len() >= k.len() + 1,
{
    reveal(spec_tile_at);
    reveal(spec_pos_obj_at);
    reveal(spec_source_obj_at);
    reveal(spec_tt_obj_at);
    reveal(spec_pair_at);
    reveal(spec_coord_at);
    reveal(spec_int_at);
}

#[verifier::rlimit(100)]
proof fn lemma_parse_items_at(ts: Seq<Tile>, k: Seq<u8>, fuel: nat)
    requires
        ts.len() >= 1,
        fuel >= ts.len(),
        k.len() > 0,
        k[0] == 93,
    ensures
        spec_parse_tiles_rest(spec_items_at(ts, k), fuel) == Ok::<(Seq<Tile>, Seq<u8>), LoadError>(
            (ts, k.drop_first()),
        ),
    decreases ts.len(),
{
    let tail = if ts.len() > 1 {
        seq![44u8] + spec_items_at(ts.drop_first(), k)
    } else {
        seq![10u8] + k
    };
    let body = spec_tile_at(ts[0], tail);
    let s = seq![10u8, 32u8, 32u8] + body;
    assert(spec_items_at(ts, k) == s);
    // leading whitespace before the record
    assert(spec_skip_ws(s) == spec_skip_ws(body)) by {
        lemma_skip_ws_concat(seq![10u8, 32u8, 32u8], body);
    }
    assert(spec_parse_byte(s, 123) == spec_parse_byte(body, 123));
    lemma_parse_tile_at(ts[0], tail);
    assert(spec_parse_tile(s) == spec_parse_tile(body)) by {
        lemma_parse_tile_ws(s, body);
    }
    if ts.len() > 1 {
        lemma_parse_byte_at(44, spec_items_at(ts.drop_first(), k));
        lemma_parse_items_at(ts.drop_first(), k, (fuel - 1) as nat);
        assert(seq![ts[0]] + ts.drop_first() =~= ts);
    } else {
        // after the final record: a newline, then the closing bracket
        assert(spec_parse_byte(tail, 44) is Err) by {
            lemma_skip_ws_concat(seq![10u8], k);
            lemma_skip_ws_noop(k);
        }
        assert(spec_parse_byte(tail, 93) == Ok::<Seq<u8>, LoadError>(k.drop_first())) by {
            lemma_skip_ws_concat(seq![10u8], k);
            lemma_skip_ws_noop(k);
        }
        assert(seq![ts[0]] =~= ts);
    }
}

/// Two inputs with the same text after leading whitespace parse to the same
/// record.
proof fn lemma_parse_tile_ws(a: Seq<u8>, b: Seq<u8>)
    requires
        spec_skip_ws(a) == spec_skip_ws(b),
    ensures
        spec_parse_tile(a) == spec_parse_tile(b),
{
    reveal(spec_parse_tile);
    assert(spec_parse_byte(a, 123) == spec_parse_byte(b, 123));
}

/// Round trip: loading an emitted tile list yields exactly the same
/// records, in the same order, with `position`, `spriteSource` and kind
/// (payload included) preserved.
#[verifier::rlimit(100)]
pub proof fn lemma_tiles_round_trip(ts: Seq<Tile>)
    ensures
        spec_load(spec_tiles_bytes(ts)) == Ok::<Seq<Tile>, LoadError>(ts),
{
    if ts.len() == 0 {
        let s = spec_tiles_bytes(ts);
        assert(s =~= seq![91u8] + seq![93u8]);
        lemma_parse_byte_at(91, seq![93u8]);
        lemma_parse_byte_at(93, Seq::<u8>::empty());
        assert(ts =~= Seq::<Tile>::empty());
    } else {
        let items = spec_items_at(ts, seq![93u8]);
        lemma_parse_byte_at(91, items);
        // a non-empty list does not continue with `]`
        let tail0 = if ts.len() > 1 {
            seq![44u8] + spec_items_at(ts.drop_first(), seq![93u8])
        } else {
            seq![10u8] + seq![93u8]
        };
        let body = spec_tile_at(ts[0], tail0);
        assert(items == seq![10u8, 32u8, 32u8] + body);
        assert(spec_skip_ws(items) == spec_skip_ws(body)) by {
            lemma_skip_ws_concat(seq![10u8, 32u8, 32u8], body);
        }
        assert(body[0] == 123) by {
            reveal(spec_tile_at);
        }
        lemma_skip_ws_noop(body);
        assert(spec_parse_byte(items, 93) is Err);
        lemma_items_at_len(ts, seq![93u8]);
        lemma_parse_items_at(ts, seq![93u8], items.len());
        assert(seq![93u8].drop_first() =~= Seq::<u8>::empty());
    }
}

proof fn lemma_items_at_len(ts: Seq<Tile>, k: Seq<u8>)
    ensures
        spec_items_at(ts, k).len() >= ts.len() + k.len(),
    decreases ts.len(),
{
    if ts.len() > 0 {
        if ts.len() > 1 {
            lemma_items_at_len(ts.drop_first(), k);
            lemma_tile_at_len(ts[0], seq![44u8] + spec_items_at(ts.drop_first(), k));
        } else {
            lemma_tile_at_len(ts[0], seq![10u8] + k);
        }
    }
}

// ---------------------------------------------------------------------
// Continuation homomorphisms: the emitted text of a construct followed by
// `k` equals the construct's own text with `k` appended.
// ---------------------------------------------------------------------
proof fn lemma_int_at_app(v: int, k: Seq<u8>)
    ensures
        spec_int_at(v, k) == spec_int_at(v, Seq::<u8>::empty()) + k,
{
    reveal(spec_int_at);
    assert(spec_int_at(v, k) =~= spec_int_at(v, Seq::<u8>::empty()) + k);
}

proof fn lemma_coord_at_app(v: int, k: Seq<u8>)
    ensures
        spec_coord_at(v, k) == spec_coord_at(v, Seq::<u8>::empty()) + k,
{
    reveal(spec_coord_at);
    assert(spec_coord_at(v, k) =~= spec_coord_at(v, Seq::<u8>::empty()) + k);
}

proof fn lemma_pair_at_app(lit: Seq<u8>, v: int, k: Seq<u8>)
    ensures
        spec_pair_at(lit, v, k) == spec_pair_at(lit, v, Seq::<u8>::empty()) + k,
{
    reveal(spec_pair_at);
    lemma_coord_at_app(v, k);
    lemma_coord_at_app(v, Seq::<u8>::empty());
    assert(spec_coord_at(v, Seq::<u8>::empty()) + Seq::<u8>::empty() =~= spec_coord_at(
        v,
        Seq::<u8>::empty(),
    ));
    assert(spec_pair_at(lit, v, k) =~= spec_pair_at(lit, v, Seq::<u8>::empty()) + k);
}

proof fn lemma_pos_obj_app(p: Vec2i, k: Seq<u8>)
    ensures
        spec_pos_obj_at(p, k) == spec_pos_obj_at(p, Seq::<u8>::empty()) + k,
{
    reveal(spec_pos_obj_at);
    let e = Seq::<u8>::empty();
    lemma_pair_at_app(lq_y(), p.y as int, seq![125u8] + k);
    lemma_pair_at_app(lq_y(), p.y as int, seq![125u8] + e);
    let yk = spec_pair_at(lq_y(), p.y as int, seq![125u8] + k);
    let ye = spec_pair_at(lq_y(), p.y as int, seq![125u8] + e);
    assert(yk =~= ye + k);
    lemma_pair_at_app(lq_x(), p.x as int, seq![44u8] + yk);
    lemma_pair_at_app(lq_x(), p.x as int, seq![44u8] + ye);
    let xk = spec_pair_at(lq_x(), p.x as int, seq![44u8] + yk);
    let xe = spec_pair_at(lq_x(), p.x as int, seq![44u8] + ye);
    assert(xk =~= xe + k);
    assert(spec_pos_obj_at(p, k) =~= spec_pos_obj_at(p, e) + k);
}

proof fn lemma_source_obj_app(r: SpriteRect, k: Seq<u8>)
    ensures
        spec_source_obj_at(r, k) == spec_source_obj_at(r, Seq::<u8>::empty()) + k,
{
    reveal(spec_source_obj_at);
    let e = Seq::<u8>::empty();
    lemma_pair_at_app(lq_h(), r.h as int, seq![125u8] + k);
    lemma_pair_at_app(lq_h(), r.h as int, seq![125u8] + e);
    let hk = spec_pair_at(lq_h(), r.h as int, seq![125u8] + k);
    let he = spec_pair_at(lq_h(), r.h as int, seq![125u8] + e);
    assert(hk =~= he + k);
    lemma_pair_at_app(lq_w(), r.w as int, seq![44u8] + hk);
    lemma_pair_at_app(lq_w(), r.w as int, seq![44u8] + he);
    let wk = spec_pair_at(lq_w(), r.w as int, seq![44u8] + hk);
    let we = spec_pair_at(lq_w(), r.w as int, seq![44u8] + he);
    assert(wk =~= we + k);
    lemma_pair_at_app(lq_y(), r.y as int, seq![44u8] + wk);
    lemma_pair_at_app(lq_y(), r.y as int, seq![44u8] + we);
    let yk = spec_pair_at(lq_y(), r.y as int, seq![44u8] + wk);
    let ye = spec_pair_at(lq_y(), r.y as int, seq![44u8] + we);
    assert(yk =~= ye + k);
    lemma_pair_at_app(lq_x(), r.x as int, seq![44u8] + yk);
    lemma_pair_at_app(lq_x(), r.x as int, seq![44u8] + ye);
    let xk = spec_pair_at(lq_x(), r.x as int, seq![44u8] + yk);
    let xe = spec_pair_at(lq_x(), r.x as int, seq![44u8] + ye);
    assert(xk =~= xe + k);
    assert(spec_source_obj_at(r, k) =~= spec_source_obj_at(r, e) + k);
}

proof fn lemma_tt_obj_app(t: TileType, k: Seq<u8>)
    ensures
        spec_tt_obj_at(t, k) == spec_tt_obj_at(t, Seq::<u8>::empty()) + k,
{
    reveal(spec_tt_obj_at);
    let e = Seq::<u8>::empty();
    lemma_int_at_app(spec_payload(t), seq![125u8] + k);
    lemma_int_at_app(spec_payload(t), seq![125u8] + e);
    let ik = spec_int_at(spec_payload(t), seq![125u8] + k);
    let ie = spec_int_at(spec_payload(t), seq![125u8] + e);
    assert(ik =~= ie + k);
    assert(spec_tt_obj_at(t, k) =~= spec_tt_obj_at(t, e) + k);
}

proof fn lemma_tile_at_app(t: Tile, k: Seq<u8>)
    ensures
        spec_tile_at(t, k) == spec_tile_at(t, Seq::<u8>::empty()) + k,
{
    reveal(spec_tile_at);
    let e = Seq::<u8>::empty();
    lemma_tt_obj_app(t.tile_type, seq![125u8] + k);
    lemma_tt_obj_app(t.tile_type, seq![125u8] + e);
    let ttk = spec_tt_obj_at(t.tile_type, seq![125u8] + k);
    let tte = spec_tt_obj_at(t.tile_type, seq![125u8] + e);
    assert(ttk =~= tte + k);
    let srctail_k = seq![44u8] + (lq_tile_type() + (seq![58u8] + ttk));
    let srctail_e = seq![44u8] + (lq_tile_type() + (seq![58u8] + tte));
    assert(srctail_k =~= srctail_e + k);
    lemma_source_obj_app(t.source, srctail_k);
    lemma_source_obj_app(t.source, srctail_e);
    let srck = spec_source_obj_at(t.source, srctail_k);
    let srce = spec_source_obj_at(t.source, srctail_e);
    assert(srck =~= srce + k);
    let postail_k = seq![44u8] + (lq_source() + (seq![58u8] + srck));
    let postail_e = seq![44u8] + (lq_source() + (seq![58u8] + srce));
    assert(postail_k =~= postail_e + k);
    lemma_pos_obj_app(t.pos, postail_k);
    lemma_pos_obj_app(t.pos, postail_e);
    let posk = spec_pos_obj_at(t.pos, postail_k);
    let pose = spec_pos_obj_at(t.pos, postail_e);
    assert(posk =~= pose + k);
    assert(spec_tile_at(t, k) =~= spec_tile_at(t, e) + k);
}

// ---------------------------------------------------------------------
// The emitter.
// ---------------------------------------------------------------------
fn push_seq(out: &mut Vec<u8>, piece: &Vec<u8>)
    ensures
        final(out)@ == old(out)@ + piece@,
{
    let n = piece.len();
    let mut i: usize = 0;
    let ghost out0 = out@;
    while i < n
        invariant
            n == piece@.len(),
            0 <= i <= n,
            out@ == out0 + piece@.take(i as int),
            out0 == old(out)@,
        decreases n - i,
    {
        out.push(piece[i]);
        proof {
            assert(out0 + piece@.take(i as int) + seq![piece@[i as int]] =~= out0 + piece@.take(
                i as int + 1,
            ));
        }
        i = i + 1;
    }
    proof {
        assert(piece@.take(n as int) =~= piece@);
    }
}

fn lit_pos() -> (r: Vec<u8>)
    ensures
        r@ == lq_pos(),
{
    let v: Vec<u8> = vec![34u8, 112u8, 111u8, 115u8, 34u8];
    proof {
        assert(v@ =~= lq_pos());
    }
    v
}

fn lit_source() -> (r: Vec<u8>)
    ensures
        r@ == lq_source(),
{
    let v: Vec<u8> = vec![34u8, 115u8, 111u8, 117u8, 114u8, 99u8, 101u8, 34u8];
    proof {
        assert(v@ =~= lq_source());
    }
    v
}

fn lit_tile_type() -> (r: Vec<u8>)
    ensures
        r@ == lq_tile_type(),
{
    let v: Vec<u8> = vec![34u8, 116u8, 105u8, 108u8, 101u8, 95u8, 116u8, 121u8, 112u8, 101u8, 34u8];
    proof {
        assert(v@ =~= lq_tile_type());
    }
    v
}

fn lit_x() -> (r: Vec<u8>)
    ensures
        r@ == lq_x(),
{
    let v: Vec<u8> = vec![34u8, 120u8, 34u8];
    proof {
        assert(v@ =~= lq_x());
    }
    v
}

fn lit_y() -> (r: Vec<u8>)
    ensures
        r@ == lq_y(),
{
    let v: Vec<u8> = vec![34u8, 121u8, 34u8];
    proof {
        assert(v@ =~= lq_y());
    }
    v
}

fn lit_w() -> (r: Vec<u8>)
    ensures
        r@ == lq_w(),
{
    let v: Vec<u8> = vec![34u8, 119u8, 34u8];
    proof {
        assert(v@ =~= lq_w());
    }
    v
}

fn lit_h() -> (r: Vec<u8>)
    ensures
        r@ == lq_h(),
{
    let v: Vec<u8> = vec![34u8, 104u8, 34u8];
    proof {
        assert(v@ =~= lq_h());
    }
    v
}

fn lit_empty() -> (r: Vec<u8>)
    ensures
        r@ == lq_empty(),
{
    let v: Vec<u8> = vec![34u8, 69u8, 109u8, 112u8, 116u8, 121u8, 34u8];
    proof {
        assert(v@ =~= lq_empty());
    }
    v
}

fn lit_floor() -> (r: Vec<u8>)
    ensures
        r@ == lq_floor(),
{
    let v: Vec<u8> = vec![34u8, 70u8, 108u8, 111u8, 111u8, 114u8, 34u8];
    proof {
        assert(v@ =~= lq_floor());
    }
    v
}

fn lit_wall() -> (r: Vec<u8>)
    ensures
        r@ == lq_wall(),
{
    let v: Vec<u8> = vec![34u8, 87u8, 97u8, 108u8, 108u8, 34u8];
    proof {
        assert(v@ =~= lq_wall());
    }
    v
}

fn lit_player_spawn() -> (r: Vec<u8>)
    ensures
        r@ == lq_player_spawn(),
{
    let v: Vec<u8> = vec![
        34u8,
        80u8,
        108u8,
        97u8,
        121u8,
        101u8,
        114u8,
        83u8,
        112u8,
        97u8,
        119u8,
        110u8,
        34u8,
    ];
    proof {
        assert(v@ =~= lq_player_spawn());
    }
    v
}

fn push_digits(out: &mut Vec<u8>, n: u64)
    requires
        n <= 0xFFFF_FFFF,
    ensures
        final(out)@ == old(out)@ + spec_digits(n as nat),
    decreases n,
{
    if n < 10 {
        out.push(48 + n as u8);
        proof {
            assert(old(out)@ + seq![(48 + n) as u8] =~= out@);
        }
    } else {
        push_digits(out, n / 10);
        out.push(48 + (n % 10) as u8);
        proof {
            assert(old(out)@ + spec_digits((n / 10) as nat) + seq![(48 + n % 10) as u8] =~= old(
                out,
            )@ + spec_digits(n as nat));
        }
    }
}

fn push_int(out: &mut Vec<u8>, v: i32)
    ensures
        final(out)@ == old(out)@ + spec_int_bytes(v as int),
{
    if v < 0 {
        out.push(45);
        let m: u64 = (-(v as i64)) as u64;
        push_digits(out, m);
        proof {
            assert(old(out)@ + seq![45u8] + spec_digits(m as nat) =~= old(out)@ + spec_int_bytes(
                v as int,
            ));
        }
    } else {
        push_digits(out, v as u64);
    }
}

fn push_coord(out: &mut Vec<u8>, v: i32)
    ensures
        final(out)@ == old(out)@ + spec_coord_at(v as int, Seq::<u8>::empty()),
{
    proof {
        reveal(spec_coord_at);
    }
    push_int(out, v);
    out.push(46);
    out.push(48);
    proof {
        assert(old(out)@ + spec_int_bytes(v as int) + seq![46u8] + seq![48u8] =~= old(out)@
            + spec_coord_at(v as int, Seq::<u8>::empty()));
    }
}

fn write_pair(out: &mut Vec<u8>, lit: &Vec<u8>, v: i32)
    ensures
        final(out)@ == old(out)@ + spec_pair_at(lit@, v as int, Seq::<u8>::empty()),
{
    proof {
        reveal(spec_pair_at);
    }
    push_seq(out, lit);
    out.push(58);
    push_coord(out, v);
    proof {
        assert(old(out)@ + lit@ + seq![58u8] + spec_coord_at(v as int, Seq::<u8>::empty()) =~= old(
            out,
        )@ + spec_pair_at(lit@, v as int, Seq::<u8>::empty()));
    }
}

fn write_pos_obj(out: &mut Vec<u8>, p: Vec2i)
    ensures
        final(out)@ == old(out)@ + spec_pos_obj_at(p, Seq::<u8>::empty()),
{
    proof {
        reveal(spec_pos_obj_at);
    }
    out.push(123);
    let lx = lit_x();
    write_pair(out, &lx, p.x);
    out.push(44);
    let ly = lit_y();
    write_pair(out, &ly, p.y);
    out.push(125);
    proof {
        lemma_pair_at_app(lq_x(), p.x as int, seq![44u8] + spec_pair_at(
            lq_y(),
            p.y as int,
            seq![125u8] + Seq::<u8>::empty(),
        ));
        lemma_pair_at_app(lq_y(), p.y as int, seq![125u8] + Seq::<u8>::empty());
        assert(out@ =~= old(out)@ + spec_pos_obj_at(p, Seq::<u8>::empty()));
    }
}

fn write_source_obj(out: &mut Vec<u8>, r: SpriteRect)
    ensures
        final(out)@ == old(out)@ + spec_source_obj_at(r, Seq::<u8>::empty()),
{
    proof {
        reveal(spec_source_obj_at);
    }
    out.push(123);
    let lx = lit_x();
    write_pair(out, &lx, r.x);
    out.push(44);
    let ly = lit_y();
    write_pair(out, &ly, r.y);
    out.push(44);
    let lw = lit_w();
    write_pair(out, &lw, r.w);
    out.push(44);
    let lh = lit_h();
    write_pair(out, &lh, r.h);
    out.push(125);
    proof {
        let k4 = seq![125u8] + Seq::<u8>::empty();
        let p4 = spec_pair_at(lq_h(), r.h as int, k4);
        let k3 = seq![44u8] + p4;
        let p3 = spec_pair_at(lq_w(), r.w as int, k3);
        let k2 = seq![44u8] + p3;
        let p2 = spec_pair_at(lq_y(), r.y as int, k2);
        let k1 = seq![44u8] + p2;
        lemma_pair_at_app(lq_x(), r.x as int, k1);
        lemma_pair_at_app(lq_y(), r.y as int, k2);
        lemma_pair_at_app(lq_w(), r.w as int, k3);
        lemma_pair_at_app(lq_h(), r.h as int, k4);
        assert(out@ =~= old(out)@ + spec_source_obj_at(r, Seq::<u8>::empty()));
    }
}

fn write_tt_obj(out: &mut Vec<u8>, t: TileType)
    ensures
        final(out)@ == old(out)@ + spec_tt_obj_at(t, Seq::<u8>::empty()),
{
    proof {
        reveal(spec_tt_obj_at);
        reveal(spec_int_at);
    }
    out.push(123);
    let (name, payload) = match t {
        TileType::Empty(n) => (lit_empty(), n),
        TileType::Floor(n) => (lit_floor(), n),
        TileType::Wall(n) => (lit_wall(), n),
        TileType::PlayerSpawn(n) => (lit_player_spawn(), n),
    };
    push_seq(out, &name);
    out.push(58);
    push_int(out, payload);
    out.push(125);
    proof {
        assert(out@ =~= old(out)@ + spec_tt_obj_at(t, Seq::<u8>::empty()));
    }
}

fn write_tile(out: &mut Vec<u8>, t: &Tile)
    ensures
        final(out)@ == old(out)@ + spec_tile_at(*t, Seq::<u8>::empty()),
{
    proof {
        reveal(spec_tile_at);
    }
    out.push(123);
    let lp = lit_pos();
    push_seq(out, &lp);
    out.push(58);
    write_pos_obj(out, t.pos);
    out.push(44);
    let ls = lit_source();
    push_seq(out, &ls);
    out.push(58);
    write_source_obj(out, t.source);
    out.push(44);
    let lt = lit_tile_type();
    push_seq(out, &lt);
    out.push(58);
    write_tt_obj(out, t.tile_type);
    out.push(125);
    proof {
        let k0 = Seq::<u8>::empty();
        lemma_tt_obj_app(t.tile_type, seq![125u8] + k0);
        lemma_source_obj_app(
            t.source,
            seq![44u8] + (lq_tile_type() + (seq![58u8] + spec_tt_obj_at(
                t.tile_type,
                seq![125u8] + k0,
            ))),
        );
        lemma_pos_obj_app(
            t.pos,
            seq![44u8] + (lq_source() + (seq![58u8] + spec_source_obj_at(
                t.source,
                seq![44u8] + (lq_tile_type() + (seq![58u8] + spec_tt_obj_at(
                    t.tile_type,
                    seq![125u8] + k0,
                ))),
            ))),
        );
        assert(out@ =~= old(out)@ + spec_tile_at(*t, k0));
    }
}

/// Serializes a tile list into the persisted map format.
#[verifier::rlimit(100)]
pub fn tiles_to_json(tiles: &Vec<Tile>) -> (out: Vec<u8>)
    ensures
        out@ == spec_tiles_bytes(tiles@),
{
    let mut out: Vec<u8> = Vec::new();
    let n = tiles.len();
    out.push(91);
    if n == 0 {
        out.push(93);
        proof {
            assert(out@ =~= spec_tiles_bytes(tiles@));
        }
        return out;
    }
    let ghost target = spec_tiles_bytes(tiles@);
    let mut i: usize = 0;
    proof {
        assert(out@ =~= seq![91u8]);
        assert(tiles@.skip(0) =~= tiles@);
    }
    while i < n
        invariant
            n == tiles@.len(),
            0 <= i < n,
            target == spec_tiles_bytes(tiles@),
            target == out@ + spec_items_at(tiles@.skip(i as int), seq![93u8]),
        decreases n - i,
    {
        let ghost pre = out@;
        out.push(10);
        out.push(32);
        out.push(32);
        write_tile(&mut out, &tiles[i]);
        proof {
            assert(tiles@.skip(i as int)[0] == tiles@[i as int]);
            assert(tiles@.skip(i as int).drop_first() =~= tiles@.skip(i as int + 1));
        }
        if i + 1 < n {
            out.push(44);
            proof {
                let tail = seq![44u8] + spec_items_at(tiles@.skip(i as int + 1), seq![93u8]);
                lemma_tile_at_app(tiles@[i as int], tail);
                assert(out@ + spec_items_at(tiles@.skip(i as int + 1), seq![93u8]) =~= pre
                    + spec_items_at(tiles@.skip(i as int), seq![93u8]));
            }
        } else {
            out.push(10);
            out.push(93);
            proof {
                let tail = seq![10u8] + seq![93u8];
                lemma_tile_at_app(tiles@[i as int], tail);
                assert(tiles@.skip(i as int).len() == 1);
                assert(out@ =~= pre + spec_items_at(tiles@.skip(i as int), seq![93u8]));
            }
            return out;
        }
        i = i + 1;
    }
    proof {
        assert(false);
    }
    out
}

// ---------------------------------------------------------------------
// The executable parser: a cursor into the byte buffer, each step pinned
// to the corresponding spec parser on the remaining input.
// ---------------------------------------------------------------------
fn is_ws_byte(b: u8) -> (r: bool)
    ensures
        r == spec_is_ws(b),
{
    b == 32 || b == 10 || b == 13 || b == 9
}

fn is_digit_byte(b: u8) -> (r: bool)
    ensures
        r == spec_is_digit(b),
{
    48 <= b && b <= 57
}

/// Advances the cursor past leading whitespace.
fn ws_end(bytes: &Vec<u8>, i: usize) -> (j: usize)
    requires
        i <= bytes@.len(),
    ensures
        i <= j <= bytes@.len(),
        spec_skip_ws(bytes@.skip(i as int)) == bytes@.skip(j as int),
{
    let n = bytes.len();
    let mut j = i;
    while j < n && is_ws_byte(bytes[j])
        invariant
            i <= j <= n,
            n == bytes@.len(),
            spec_skip_ws(bytes@.skip(i as int)) == spec_skip_ws(bytes@.skip(j as int)),
        decreases n - j,
    {
        proof {
            assert(bytes@.skip(j as int)[0] == bytes@[j as int]);
            assert(bytes@.skip(j as int).drop_first() =~= bytes@.skip(j as int + 1));
        }
        j = j + 1;
    }
    proof {
        if j < n {
            assert(bytes@.skip(j as int)[0] == bytes@[j as int]);
        }
        lemma_skip_ws_noop(bytes@.skip(j as int));
    }
    j
}

/// Consumes one expected byte (after whitespace).
fn expect_byte(bytes: &Vec<u8>, i: usize, b: u8) -> (r: Option<usize>)
    requires
        i <= bytes@.len(),
        !spec_is_ws(b),
    ensures
        match r {
            Some(j) => j <= bytes@.len() && spec_parse_byte(bytes@.skip(i as int), b) == Ok::<
                Seq<u8>,
                LoadError,
            >(bytes@.skip(j as int)),
            None => spec_parse_byte(bytes@.skip(i as int), b) == Err::<Seq<u8>, LoadError>(
                LoadError::Syntax,
            ),
        },
{
    let j = ws_end(bytes, i);
    if j < bytes.len() && bytes[j] == b {
        proof {
            assert(bytes@.skip(j as int)[0] == bytes@[j as int]);
            assert(bytes@.skip(j as int).drop_first() =~= bytes@.skip(j as int + 1));
        }
        Some(j + 1)
    } else {
        proof {
            if j < bytes@.len() {
                assert(bytes@.skip(j as int)[0] == bytes@[j as int]);
            }
        }
        None
    }
}

/// Consumes one expected literal (after whitespace).
#[verifier::loop_isolation(false)]
fn expect_lit(bytes: &Vec<u8>, i: usize, lit: &Vec<u8>) -> (r: Option<usize>)
    requires
        i <= bytes@.len(),
        lit@.len() > 0,
    ensures
        match r {
            Some(j) => j <= bytes@.len() && spec_parse_lit(bytes@.skip(i as int), lit@) == Ok::<
                Seq<u8>,
                LoadError,
            >(bytes@.skip(j as int)),
            None => spec_parse_lit(bytes@.skip(i as int), lit@) == Err::<Seq<u8>, LoadError>(
                LoadError::Syntax,
            ),
        },
{
    let j = ws_end(bytes, i);
    let m = lit.len();
    if m > bytes.len() - j {
        return None;
    }
    let mut k: usize = 0;
    while k < m
        invariant
            0 <= k <= m,
            m == lit@.len(),
            j + m <= bytes@.len(),
            spec_skip_ws(bytes@.skip(i as int)) == bytes@.skip(j as int),
            forall|q: int| 0 <= q < k ==> bytes@[j + q] == lit@[q],
        decreases m - k,
    {
        proof {
            assert(j + k < bytes@.len());
        }
        if bytes[j + k] != lit[k] {
            proof {
                let s1 = bytes@.skip(j as int);
                assert(s1.subrange(0, m as int)[k as int] == bytes@[j + k]);
            }
            return None;
        }
        k = k + 1;
    }
    proof {
        let s1 = bytes@.skip(j as int);
        assert(s1.subrange(0, m as int) =~= lit@);
        assert(s1.skip(m as int) =~= bytes@.skip(j + m));
    }
    Some(j + m)
}

/// Parses a number (after whitespace): optional minus, digits, optional
/// all-zero fraction; yields the value and the cursor after it.
#[verifier::loop_isolation(false)]
fn parse_number_e(bytes: &Vec<u8>, i: usize) -> (r: Result<(i32, usize), LoadError>)
    requires
        i <= bytes@.len(),
    ensures
        match r {
            Ok((v, j)) => j <= bytes@.len() && spec_parse_number(bytes@.skip(i as int)) == Ok::<
                (int, Seq<u8>),
                LoadError,
            >((v as int, bytes@.skip(j as int))),
            Err(e) => spec_parse_number(bytes@.skip(i as int)) == Err::<(int, Seq<u8>), LoadError>(
                e,
            ),
        },
{
    let n = bytes.len();
    let j = ws_end(bytes, i);
    let neg = j < n && bytes[j] == 45;
    let j2 = if neg {
        proof {
            assert(bytes@.skip(j as int)[0] == bytes@[j as int]);
            assert(bytes@.skip(j as int).drop_first() =~= bytes@.skip(j as int + 1));
        }
        j + 1
    } else {
        proof {
            if j < n {
                assert(bytes@.skip(j as int)[0] == bytes@[j as int]);
            }
        }
        j
    };
    if j2 >= n || !is_digit_byte(bytes[j2]) {
        proof {
            if j2 < n {
                assert(bytes@.skip(j2 as int)[0] == bytes@[j2 as int]);
            }
        }
        return Err(LoadError::Syntax);
    }
    proof {
        assert(bytes@.skip(j2 as int)[0] == bytes@[j2 as int]);
    }
    let mut acc: u64 = 0;
    let mut jc = j2;
    while jc < n && is_digit_byte(bytes[jc])
        invariant
            j2 <= jc <= n,
            n == bytes@.len(),
            acc <= 0xFFFF_FFFF,
            spec_eat_digits(bytes@.skip(j2 as int), 0) == spec_eat_digits(
                bytes@.skip(jc as int),
                acc as nat,
            ),
        decreases n - jc,
    {
        proof {
            assert(bytes@.skip(jc as int)[0] == bytes@[jc as int]);
            assert(bytes@.skip(jc as int).drop_first() =~= bytes@.skip(jc as int + 1));
        }
        let d: u64 = (bytes[jc] - 48) as u64;
        let acc2: u64 = acc * 10 + d;
        if acc2 > 0xFFFF_FFFF {
            proof {
                assert(spec_eat_digits(bytes@.skip(jc as int), acc as nat) is None);
                assert(spec_eat_digits(bytes@.skip(j2 as int), 0) is None);
            }
            return Err(LoadError::Data);
        }
        acc = acc2;
        jc = jc + 1;
    }
    proof {
        if jc < n {
            assert(bytes@.skip(jc as int)[0] == bytes@[jc as int]);
        }
        assert(spec_eat_digits(bytes@.skip(jc as int), acc as nat) == Some(
            (acc as nat, bytes@.skip(jc as int)),
        ));
    }
    // optional fraction
    let mut j5 = jc;
    if jc < n && bytes[jc] == 46 {
        proof {
            assert(bytes@.skip(jc as int)[0] == bytes@[jc as int]);
            assert(bytes@.skip(jc as int).drop_first() =~= bytes@.skip(jc as int + 1));
        }
        let j4 = jc + 1;
        if j4 >= n || !is_digit_byte(bytes[j4]) {
            proof {
                if j4 < n {
                    assert(bytes@.skip(j4 as int)[0] == bytes@[j4 as int]);
                }
            }
            return Err(LoadError::Syntax);
        }
        proof {
            assert(bytes@.skip(j4 as int)[0] == bytes@[j4 as int]);
        }
        j5 = j4;
        while j5 < n && is_digit_byte(bytes[j5])
            invariant
                j4 <= j5 <= n,
                n == bytes@.len(),
                spec_eat_zeros(bytes@.skip(j4 as int)) == spec_eat_zeros(bytes@.skip(j5 as int)),
            decreases n - j5,
        {
            proof {
                assert(bytes@.skip(j5 as int)[0] == bytes@[j5 as int]);
                assert(bytes@.skip(j5 as int).drop_first() =~= bytes@.skip(j5 as int + 1));
            }
            if bytes[j5] != 48 {
                proof {
                    assert(spec_eat_zeros(bytes@.skip(j5 as int)) == Err::<Seq<u8>, LoadError>(
                        LoadError::Data,
                    ));
                    assert(spec_eat_zeros(bytes@.skip(j4 as int)) == Err::<Seq<u8>, LoadError>(
                        LoadError::Data,
                    ));
                }
                return Err(LoadError::Data);
            }
            j5 = j5 + 1;
        }
        proof {
            if j5 < n {
                assert(bytes@.skip(j5 as int)[0] == bytes@[j5 as int]);
            }
        }
    } else {
        proof {
            if jc < n {
                assert(bytes@.skip(jc as int)[0] == bytes@[jc as int]);
            }
        }
    }
    if neg {
        if acc > 2147483648 {
            return Err(LoadError::Data);
        }
        let v: i32 = (-(acc as i64)) as i32;
        Ok((v, j5))
    } else {
        if acc > 2147483647 {
            return Err(LoadError::Data);
        }
        Ok((acc as i32, j5))
    }
}

/// Parses one `"name": number` pair.
fn parse_pair_e(bytes: &Vec<u8>, i: usize, lit: &Vec<u8>) -> (r: Result<(i32, usize), LoadError>)
    requires
        i <= bytes@.len(),
        lit@.len() > 0,
    ensures
        match r {
            Ok((v, j)) => j <= bytes@.len() && spec_parse_pair(bytes@.skip(i as int), lit@) == Ok::<
                (int, Seq<u8>),
                LoadError,
            >((v as int, bytes@.skip(j as int))),
            Err(e) => spec_parse_pair(bytes@.skip(i as int), lit@) == Err::<
                (int, Seq<u8>),
                LoadError,
            >(e),
        },
{
    let j1 = match expect_lit(bytes, i, lit) {
        Some(j) => j,
        None => {
            return Err(LoadError::Syntax);
        },
    };
    let j2 = match expect_byte(bytes, j1, 58) {
        Some(j) => j,
        None => {
            return Err(LoadError::Syntax);
        },
    };
    parse_number_e(bytes, j2)
}

/// Parses the four pairs of `source` and its closing brace.
fn parse_source_fields_e(bytes: &Vec<u8>, i: usize) -> (r: Result<(SpriteRect, usize), LoadError>)
    requires
        i <= bytes@.len(),
    ensures
        match r {
            Ok((src, j)) => j <= bytes@.len() && spec_parse_source_fields(bytes@.skip(i as int))
                == Ok::<(SpriteRect, Seq<u8>), LoadError>((src, bytes@.skip(j as int))),
            Err(e) => spec_parse_source_fields(bytes@.skip(i as int)) == Err::<
                (SpriteRect, Seq<u8>),
                LoadError,
            >(e),
        },
{
    let lx = lit_x();
    let ly = lit_y();
    let lw = lit_w();
    let lh = lit_h();
    let (sx, j1) = match parse_pair_e(bytes, i, &lx) {
        Ok(v) => v,
        Err(e) => {
            return Err(e);
        },
    };
    let j2 = match expect_byte(bytes, j1, 44) {
        Some(j) => j,
        None => {
            return Err(LoadError::Syntax);
        },
    };
    let (sy, j3) = match parse_pair_e(bytes, j2, &ly) {
        Ok(v) => v,
        Err(e) => {
            return Err(e);
        },
    };
    let j4 = match expect_byte(bytes, j3, 44) {
        Some(j) => j,
        None => {
            return Err(LoadError::Syntax);
        },
    };
    let (sw, j5) = match parse_pair_e(bytes, j4, &lw) {
        Ok(v) => v,
        Err(e) => {
            return Err(e);
        },
    };
    let j6 = match expect_byte(bytes, j5, 44) {
        Some(j) => j,
        None => {
            return Err(LoadError::Syntax);
        },
    };
    let (sh, j7) = match parse_pair_e(bytes, j6, &lh) {
        Ok(v) => v,
        Err(e) => {
            return Err(e);
        },
    };
    let j8 = match expect_byte(bytes, j7, 125) {
        Some(j) => j,
        None => {
            return Err(LoadError::Syntax);
        },
    };
    Ok((SpriteRect { x: sx, y: sy, w: sw, h: sh }, j8))
}

/// Parses the kind object's tail once the variant is known.
fn parse_tt_tail_e(bytes: &Vec<u8>, i: usize, which: u8) -> (r: Result<(TileType, usize), LoadError>)
    requires
        i <= bytes@.len(),
        which <= 3,
    ensures
        match r {
            Ok((tt, j)) => j <= bytes@.len() && spec_parse_tt_tail(
                bytes@.skip(i as int),
                which as int,
            ) == Ok::<(TileType, Seq<u8>), LoadError>((tt, bytes@.skip(j as int))),
            Err(e) => spec_parse_tt_tail(bytes@.skip(i as int), which as int) == Err::<
                (TileType, Seq<u8>),
                LoadError,
            >(e),
        },
{
    let j1 = match expect_byte(bytes, i, 58) {
        Some(j) => j,
        None => {
            return Err(LoadError::Syntax);
        },
    };
    let (pn, j2) = match parse_number_e(bytes, j1) {
        Ok(v) => v,
        Err(e) => {
            return Err(e);
        },
    };
    let j3 = match expect_byte(bytes, j2, 125) {
        Some(j) => j,
        None => {
            return Err(LoadError::Syntax);
        },
    };
    let j4 = match expect_byte(bytes, j3, 125) {
        Some(j) => j,
        None => {
            return Err(LoadError::Syntax);
        },
    };
    let tt = if which == 0 {
        TileType::Empty(pn)
    } else if which == 1 {
        TileType::Floor(pn)
    } else if which == 2 {
        TileType::Wall(pn)
    } else {
        TileType::PlayerSpawn(pn)
    };
    Ok((tt, j4))
}

/// Parses the `, "tile_type": { "Name": payload } }` tail of a record.
fn parse_tt_e(bytes: &Vec<u8>, i: usize) -> (r: Result<(TileType, usize), LoadError>)
    requires
        i <= bytes@.len(),
    ensures
        match r {
            Ok((tt, j)) => j <= bytes@.len() && spec_parse_tt(bytes@.skip(i as int)) == Ok::<
                (TileType, Seq<u8>),
                LoadError,
            >((tt, bytes@.skip(j as int))),
            Err(e) => spec_parse_tt(bytes@.skip(i as int)) == Err::<(TileType, Seq<u8>), LoadError>(
                e,
            ),
        },
{
    let j1 = match expect_byte(bytes, i, 44) {
        Some(j) => j,
        None => {
            return Err(LoadError::Syntax);
        },
    };
    let ltt = lit_tile_type();
    let j2 = match expect_lit(bytes, j1, &ltt) {
        Some(j) => j,
        None => {
            return Err(LoadError::Syntax);
        },
    };
    let j3 = match expect_byte(bytes, j2, 58) {
        Some(j) => j,
        None => {
            return Err(LoadError::Syntax);
        },
    };
    let j4 = match expect_byte(bytes, j3, 123) {
        Some(j) => j,
        None => {
            return Err(LoadError::Syntax);
        },
    };
    let le = lit_empty();
    if let Some(j5) = expect_lit(bytes, j4, &le) {
        return parse_tt_tail_e(bytes, j5, 0);
    }
    let lf = lit_floor();
    if let Some(j5) = expect_lit(bytes, j4, &lf) {
        return parse_tt_tail_e(bytes, j5, 1);
    }
    let lw = lit_wall();
    if let Some(j5) = expect_lit(bytes, j4, &lw) {
        return parse_tt_tail_e(bytes, j5, 2);
    }
    let lp = lit_player_spawn();
    if let Some(j5) = expect_lit(bytes, j4, &lp) {
        return parse_tt_tail_e(bytes, j5, 3);
    }
    Err(LoadError::Data)
}

/// Parses one tile record.
fn parse_tile_e(bytes: &Vec<u8>, i: usize) -> (r: Result<(Tile, usize), LoadError>)
    requires
        i <= bytes@.len(),
    ensures
        match r {
            Ok((t, j)) => j <= bytes@.len() && spec_parse_tile(bytes@.skip(i as int)) == Ok::<
                (Tile, Seq<u8>),
                LoadError,
            >((t, bytes@.skip(j as int))),
            Err(e) => spec_parse_tile(bytes@.skip(i as int)) == Err::<(Tile, Seq<u8>), LoadError>(
                e,
            ),
        },
{
    proof {
        reveal(spec_parse_tile);
    }
    let j1 = match expect_byte(bytes, i, 123) {
        Some(j) => j,
        None => {
            return Err(LoadError::Syntax);
        },
    };
    let lp = lit_pos();
    let j2 = match expect_lit(bytes, j1, &lp) {
        Some(j) => j,
        None => {
            return Err(LoadError::Syntax);
        },
    };
    let j3 = match expect_byte(bytes, j2, 58) {
        Some(j) => j,
        None => {
            return Err(LoadError::Syntax);
        },
    };
    let j4 = match expect_byte(bytes, j3, 123) {
        Some(j) => j,
        None => {
            return Err(LoadError::Syntax);
        },
    };
    let lx = lit_x();
    let (px, j5) = match parse_pair_e(bytes, j4, &lx) {
        Ok(v) => v,
        Err(e) => {
            return Err(e);
        },
    };
    let j6 = match expect_byte(bytes, j5, 44) {
        Some(j) => j,
        None => {
            return Err(LoadError::Syntax);
        },
    };
    let ly = lit_y();
    let (py, j7) = match parse_pair_e(bytes, j6, &ly) {
        Ok(v) => v,
        Err(e) => {
            return Err(e);
        },
    };
    let j8 = match expect_byte(bytes, j7, 125) {
        Some(j) => j,
        None => {
            return Err(LoadError::Syntax);
        },
    };
    let j9 = match expect_byte(bytes, j8, 44) {
        Some(j) => j,
        None => {
            return Err(LoadError::Syntax);
        },
    };
    let ls = lit_source();
    let j10 = match expect_lit(bytes, j9, &ls) {
        Some(j) => j,
        None => {
            return Err(LoadError::Syntax);
        },
    };
    let j11 = match expect_byte(bytes, j10, 58) {
        Some(j) => j,
        None => {
            return Err(LoadError::Syntax);
        },
    };
    let j12 = match expect_byte(bytes, j11, 123) {
        Some(j) => j,
        None => {
            return Err(LoadError::Syntax);
        },
    };
    let (src, j13) = match parse_source_fields_e(bytes, j12) {
        Ok(v) => v,
        Err(e) => {
            return Err(e);
        },
    };
    let (tt, j14) = match parse_tt_e(bytes, j13) {
        Ok(v) => v,
        Err(e) => {
            return Err(e);
        },
    };
    Ok((Tile { pos: Vec2i { x: px, y: py }, source: src, tile_type: tt }, j14))
}

/// Parses a persisted tile map. Yields the records in file order, or the
/// reason the text was rejected.
#[verifier::rlimit(100)]
#[verifier::loop_isolation(false)]
pub fn tiles_from_json(bytes: &Vec<u8>) -> (r: Result<Vec<Tile>, LoadError>)
    ensures
        match (r, spec_load(bytes@)) {
            (Ok(v), Ok(s)) => v@ == s,
            (Err(a), Err(b)) => a == b,
            _ => false,
        },
{
    proof {
        assert(bytes@.skip(0) =~= bytes@);
    }
    let j1 = match expect_byte(bytes, 0, 91) {
        Some(j) => j,
        None => {
            return Err(LoadError::Syntax);
        },
    };
    if let Some(j2) = expect_byte(bytes, j1, 93) {
        let j3 = ws_end(bytes, j2);
        if j3 == bytes.len() {
            proof {
                assert(bytes@.skip(j3 as int).len() == 0);
            }
            let out: Vec<Tile> = Vec::new();
            proof {
                assert(out@ =~= Seq::<Tile>::empty());
            }
            return Ok(out);
        } else {
            return Err(LoadError::Syntax);
        }
    }
    let ghost s1 = bytes@.skip(j1 as int);
    let ghost fuel0: nat = s1.len();
    let mut fuel: usize = bytes.len() - j1;
    let mut acc: Vec<Tile> = Vec::new();
    let mut jc = j1;
    loop
        invariant
            jc <= bytes@.len(),
            fuel as nat <= fuel0,
            spec_parse_tiles_rest(s1, fuel0) == match spec_parse_tiles_rest(
                bytes@.skip(jc as int),
                fuel as nat,
            ) {
                Ok((ts, rest)) => Ok::<(Seq<Tile>, Seq<u8>), LoadError>((acc@ + ts, rest)),
                Err(e) => Err::<(Seq<Tile>, Seq<u8>), LoadError>(e),
            },
            spec_load(bytes@) == match spec_parse_tiles_rest(s1, fuel0) {
                Ok((ts, rest)) => if spec_skip_ws(rest).len() == 0 {
                    Ok::<Seq<Tile>, LoadError>(ts)
                } else {
                    Err::<Seq<Tile>, LoadError>(LoadError::Syntax)
                },
                Err(e) => Err::<Seq<Tile>, LoadError>(e),
            },
        decreases fuel,
    {
        if fuel == 0 {
            return Err(LoadError::Syntax);
        }
        let (t, j) = match parse_tile_e(bytes, jc) {
            Ok(v) => v,
            Err(e) => {
                return Err(e);
            },
        };
        if let Some(j2) = expect_byte(bytes, j, 44) {
            let ghost acc_pre = acc@;
            acc.push(t);
            proof {
                assert forall|ts2: Seq<Tile>| true implies acc_pre + (seq![t] + ts2) == acc@
                    + ts2 by {
                    assert(acc_pre + (seq![t] + ts2) =~= acc@ + ts2);
                }
            }
            jc = j2;
            fuel = fuel - 1;
        } else {
            if let Some(j2) = expect_byte(bytes, j, 93) {
                let ghost acc_pre = acc@;
                acc.push(t);
                proof {
                    assert(acc_pre + seq![t] =~= acc@);
                }
                let j3 = ws_end(bytes, j2);
                if j3 == bytes.len() {
                    proof {
                        assert(bytes@.skip(j3 as int).len() == 0);
                    }
                    return Ok(acc);
                } else {
                    proof {
                        assert(bytes@.skip(j3 as int).len() > 0);
                    }
                    return Err(LoadError::Syntax);
                }
            } else {
                return Err(LoadError::Syntax);
            }
        }
    }
}

} // verus!
