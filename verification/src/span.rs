//! Stretches of the image's byte stream, and how a stretch is cut into
//! consecutive pieces: the image into windows, a window into the chunks of its
//! workers.

use vstd::prelude::*;

verus! {

/// The `len` bytes of the image's byte stream that start at `offset`.
#[derive(Clone, Copy, Debug, PartialEq, Eq, Structural)]
pub struct Span {
    pub offset: usize,
    pub len: usize,
}

impl Span {
    /// The offset just behind the last byte of the span.
    pub open spec fn end(self) -> int {
        self.offset + self.len
    }
}

/// The pieces into which the `len` bytes from `offset` on are cut where no
/// piece may hold more than `piece` bytes: each piece but the last holds
/// exactly `piece` bytes, and the last holds what is left.
pub open spec fn spec_split(offset: nat, len: nat, piece: nat) -> Seq<Span>
    decreases len,
{
    if len == 0 || piece == 0 {
        Seq::empty()
    } else {
        let first = if piece < len {
            piece
        } else {
            len
        };
        seq![Span { offset: offset as usize, len: first as usize }].add(
            spec_split(offset + first, (len - first) as nat, piece),
        )
    }
}

/// The number of bytes that the spans hold together.
pub open spec fn spec_total_len(spans: Seq<Span>) -> nat
    decreases spans.len(),
{
    if spans.len() == 0 {
        0
    } else {
        spans[0].len as nat + spec_total_len(spans.drop_first())
    }
}

/// The pieces of a stretch follow one another from its first byte to its
/// last: the first piece starts where the stretch starts, each piece starts
/// where the one before it ends, and the last piece ends where the stretch
/// ends. No piece is empty and none holds more than `piece` bytes. So every
/// byte of the stretch lies in exactly one piece, and the pieces hold `len`
/// bytes together.
pub proof fn lemma_split_covers(offset: nat, len: nat, piece: nat)
    requires
        piece > 0,
        offset + len <= usize::MAX,
    ensures
        len == 0 <==> spec_split(offset, len, piece).len() == 0,
        len > 0 ==> spec_split(offset, len, piece)[0].offset == offset,
        len > 0 ==> spec_split(offset, len, piece).last().end() == offset + len,
        forall|i: int|
            0 <= i < spec_split(offset, len, piece).len() ==> {
                &&& 0 < (#[trigger] spec_split(offset, len, piece)[i]).len <= piece
                &&& offset <= spec_split(offset, len, piece)[i].offset
                &&& spec_split(offset, len, piece)[i].end() <= offset + len
            },
        forall|i: int|
            0 <= i < spec_split(offset, len, piece).len() - 1 ==> (#[trigger] spec_split(
                offset,
                len,
                piece,
            )[i + 1]).offset == spec_split(offset, len, piece)[i].end(),
        spec_total_len(spec_split(offset, len, piece)) == len,
    decreases len,
{
    let spans = spec_split(offset, len, piece);
    if len > 0 {
        let first: nat = if piece < len {
            piece
        } else {
            len
        };
        let head = Span { offset: offset as usize, len: first as usize };
        let rest = spec_split(offset + first, (len - first) as nat, piece);
        lemma_split_covers(offset + first, (len - first) as nat, piece);
        assert(spans == seq![head].add(rest));
        assert(spans.drop_first() =~= rest);
        assert forall|i: int| 0 <= i < spans.len() - 1 implies (#[trigger] spans[i + 1]).offset
            == spans[i].end() by {
            assert(spans[i + 1] == rest[i]);
        }
    }
}

/// The length of piece `i` of a stretch of `len` bytes cut into pieces of
/// `piece` bytes: `piece`, or what is left of the stretch where that is less.
pub open spec fn spec_piece_len(len: nat, piece: nat, i: int) -> int {
    if len - i * piece < piece {
        len - i * piece
    } else {
        piece as int
    }
}

/// Where each piece lies: piece `i` starts `i` whole pieces behind the start
/// of the stretch, and holds `piece` bytes or, where fewer are left, the
/// rest.
pub proof fn lemma_split_index(offset: nat, len: nat, piece: nat, i: int)
    requires
        piece > 0,
        offset + len <= usize::MAX,
        0 <= i < spec_split(offset, len, piece).len(),
    ensures
        spec_split(offset, len, piece)[i].offset == offset + i * piece,
        i * piece < len,
        spec_split(offset, len, piece)[i].len == spec_piece_len(len, piece, i),
    decreases len,
{
    let spans = spec_split(offset, len, piece);
    let first: nat = if piece < len {
        piece
    } else {
        len
    };
    let head = Span { offset: offset as usize, len: first as usize };
    let rest = spec_split(offset + first, (len - first) as nat, piece);
    assert(spans == seq![head].add(rest));
    if i > 0 {
        lemma_split_index(offset + first, (len - first) as nat, piece, i - 1);
        assert((i - 1) * piece + piece == i * piece) by (nonlinear_arith);
    }
}

/// There are as many pieces as `len / piece`, rounded up.
pub proof fn lemma_split_count(offset: nat, len: nat, piece: nat)
    requires
        piece > 0,
    ensures
        spec_split(offset, len, piece).len() == (len + piece - 1) / (piece as int),
    decreases len,
{
    let p = piece as int;
    if len == 0 {
        vstd::arithmetic::div_mod::lemma_basic_div_specific_divisor(p);
    } else if len <= piece {
        assert(spec_split(offset + len, 0, piece).len() == 0);
        vstd::arithmetic::div_mod::lemma_fundamental_div_mod_converse(
            len + piece - 1,
            p,
            1,
            len - 1,
        );
    } else {
        lemma_split_count(offset + piece, (len - piece) as nat, piece);
        let q = (len - piece + piece - 1) / p;
        vstd::arithmetic::div_mod::lemma_fundamental_div_mod(len - piece + piece - 1, p);
        vstd::arithmetic::div_mod::lemma_mod_bound(len - piece + piece - 1, p);
        assert(len + piece - 1 == (q + 1) * p + (len - piece + piece - 1) % p)
            by (nonlinear_arith)
            requires
                len - piece + piece - 1 == p * q + (len - piece + piece - 1) % p,
                p == piece,
        ;
        vstd::arithmetic::div_mod::lemma_fundamental_div_mod_converse(
            len + piece - 1,
            p,
            q + 1,
            (len - piece + piece - 1) % p,
        );
    }
}

/// Where the stretch and the largest piece are whole numbers of units, so is
/// every piece, and every piece starts a whole number of units behind the
/// start of the stretch.
pub proof fn lemma_split_keeps_units(offset: nat, len: nat, piece: nat, unit: nat)
    requires
        piece > 0,
        unit > 0,
        offset + len <= usize::MAX,
        offset % unit == 0,
        len % unit == 0,
        piece % unit == 0,
    ensures
        forall|i: int|
            0 <= i < spec_split(offset, len, piece).len() ==> {
                &&& (#[trigger] spec_split(offset, len, piece)[i]).offset as int % (unit as int)
                    == 0
                &&& spec_split(offset, len, piece)[i].len as int % (unit as int) == 0
            },
    decreases len,
{
    let spans = spec_split(offset, len, piece);
    if len > 0 {
        let first: nat = if piece < len {
            piece
        } else {
            len
        };
        let head = Span { offset: offset as usize, len: first as usize };
        let rest = spec_split(offset + first, (len - first) as nat, piece);
        vstd::arithmetic::div_mod::lemma_add_mod_noop(
            offset as int,
            first as int,
            unit as int,
        );
        vstd::arithmetic::div_mod::lemma_sub_mod_noop(len as int, first as int, unit as int);
        vstd::arithmetic::div_mod::lemma_small_mod(0, unit);
        lemma_split_keeps_units(offset + first, (len - first) as nat, piece, unit);
        assert(spans == seq![head].add(rest));
    }
}

/// Cuts the `len` bytes from `offset` on into pieces of `piece` bytes, the
/// last one shorter where `len` is no multiple of `piece`.
pub fn split(offset: usize, len: usize, piece: usize) -> (spans: Vec<Span>)
    requires
        piece > 0,
        offset + len <= usize::MAX,
    ensures
        spans@ == spec_split(offset as nat, len as nat, piece as nat),
{
    let mut spans: Vec<Span> = Vec::new();
    let mut start: usize = 0;
    while start < len
        invariant
            piece > 0,
            offset + len <= usize::MAX,
            start <= len,
            spans@.add(spec_split((offset + start) as nat, (len - start) as nat, piece as nat))
                == spec_split(offset as nat, len as nat, piece as nat),
        decreases len - start,
    {
        let left: usize = len - start;
        let first: usize = if piece < left {
            piece
        } else {
            left
        };
        let ghost rest = spec_split(
            (offset + start + first) as nat,
            (left - first) as nat,
            piece as nat,
        );
        let ghost head = Span { offset: (offset + start) as usize, len: first };
        proof {
            assert(spec_split((offset + start) as nat, left as nat, piece as nat) == seq![
                head,
            ].add(rest));
        }
        spans.push(Span { offset: offset + start, len: first });
        start += first;
    }
    spans
}

} // verus!
