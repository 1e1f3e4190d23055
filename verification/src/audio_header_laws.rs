//! Laws on the audio coding header: where each of its fields stands, which code book
//! a selector picks, and when an adjustment follows it.

use crate::audio_data::{quant_type, AudioQuantType, CODEBOOK_GROUP_SIZE};
use crate::audio_header::{
    adj_follows, audio_coding_header, layout_at, sel_bits_before, sel_width, AudioCodingLayout,
    AudioCodingView,
};
use crate::bits::{field, lemma_field_bound};
use crate::error::Error;
use crate::side_info::{AbitsCodebook, ScaleFactorAdjustment, ScalesCodebook, TmodeCodebook};
use vstd::arithmetic::power2::{lemma2_to64, pow2};
use vstd::prelude::*;

verus! {

/// A selector has as many bits as it takes to tell the code books of its allocation
/// index apart, and none where the index has no group of them.
pub proof fn law_selector_tells_its_books_apart(n: int)
    requires
        0 <= n < 26,
    ensures
        n <= 10 ==> pow2(sel_width(n)) == CODEBOOK_GROUP_SIZE@[n + 1],
        n > 10 ==> sel_width(n) == 0,
{
    lemma2_to64();
}

/// An adjustment follows a selector exactly where the selector picks a Huffman book
/// for its allocation index: where it is below the last one of its group.
pub proof fn law_adjustment_follows_a_huffman_book(n: int, sel: u8)
    requires
        0 <= n < 26,
        (sel as nat) < pow2(sel_width(n)),
    ensures
        adj_follows(n, sel as nat) <==> quant_type((n + 1) as u8, sel) == AudioQuantType::Huffman,
        n <= 10 ==> (adj_follows(n, sel as nat) <==> sel + 1 < CODEBOOK_GROUP_SIZE@[n + 1]),
        adj_follows(n, sel as nat) <==> n <= 9 && sel + 1 < pow2(sel_width(n)),
{
    lemma2_to64();
    law_selector_tells_its_books_apart(n);
}

/// The selectors that come before selector `n` of channel `ch`, index by index and
/// channel by channel, and pick a Huffman book.
pub open spec fn huffman_before(sel: Seq<Seq<u8>>, n: nat, ch: nat) -> nat
    decreases n, ch,
{
    if ch > 0 {
        huffman_before(sel, n, (ch - 1) as nat) + (if quant_type(
            (n + 1) as u8,
            sel[ch - 1][n as int],
        ) == AudioQuantType::Huffman {
            1nat
        } else {
            0nat
        })
    } else if n > 0 {
        huffman_before(sel, (n - 1) as nat, sel.len())
    } else {
        0
    }
}

/// The selector and the adjustment of an allocation index are those of the entry before
/// it, for the indices from 1 to 26 of a channel. For others they are zero and one.
pub proof fn law_entries_by_allocation_index(h: AudioCodingView, ch: int, abits: int)
    requires
        0 <= ch,
        0 <= abits,
    ensures
        1 <= abits <= 26 && ch < h.sel.len() ==> h.sel_of(ch, abits) == h.sel[ch][abits - 1],
        1 <= abits <= 26 && ch < h.adj.len() ==> h.adj_of(ch, abits) == h.adj[ch][abits - 1],
        abits == 0 || abits > 26 || ch >= h.sel.len() ==> h.sel_of(ch, abits) == 0,
        abits == 0 || abits > 26 || ch >= h.adj.len() ==> h.adj_of(ch, abits)
            == ScaleFactorAdjustment::Adj0,
{
}

/// The bits of one channel in the rows of selectors before row `n`.
spec fn sel_base(n: nat) -> nat
    decreases n,
{
    if n == 0 {
        0
    } else {
        sel_base((n - 1) as nat) + sel_width(n - 1)
    }
}

proof fn lemma_sel_bits(nch: nat, n: nat, ch: nat)
    requires
        n <= 10,
    ensures
        sel_bits_before(nch, n, ch) == sel_base(n) * nch + sel_width(n as int) * ch,
    decreases n, ch,
{
    let w: nat = sel_width(n as int);
    if ch > 0 {
        lemma_sel_bits(nch, n, (ch - 1) as nat);
        assert(w * ch == w * (ch - 1) + w) by (nonlinear_arith)
            requires
                ch > 0,
        ;
    } else if n > 0 {
        lemma_sel_bits(nch, (n - 1) as nat, nch);
        let b: nat = sel_base((n - 1) as nat);
        let v: nat = sel_width(n - 1);
        assert((b + v) * nch == b * nch + v * nch) by (nonlinear_arith);
        assert(w * ch == 0) by (nonlinear_arith)
            requires
                ch == 0,
        ;
    } else {
        assert(sel_base(0) * nch == 0) by (nonlinear_arith)
            requires
                sel_base(0) == 0,
        ;
        assert(w * ch == 0) by (nonlinear_arith)
            requires
                ch == 0,
        ;
    }
}

proof fn lemma_sel_bases()
    ensures
        sel_base(0) == 0,
        sel_base(1) == 1,
        sel_base(2) == 3,
        sel_base(3) == 5,
        sel_base(4) == 7,
        sel_base(5) == 9,
        sel_base(6) == 12,
        sel_base(7) == 15,
        sel_base(8) == 18,
        sel_base(9) == 21,
        sel_base(10) == 24,
{
    reveal_with_fuel(sel_base, 11);
}

/// The adjustments before one take two bits for each Huffman book.
proof fn lemma_adj_bits(l: AudioCodingLayout, n: nat, ch: nat)
    requires
        n <= 10,
        n == 10 ==> ch == 0,
        ch <= l.nch,
    ensures
        l.adj_bits_before(n, ch) == 2 * huffman_before(l.contents().sel, n, ch),
    decreases n, ch,
{
    let sel: Seq<Seq<u8>> = l.contents().sel;
    if ch > 0 {
        lemma_adj_bits(l, n, (ch - 1) as nat);
        lemma_selector(l, ch - 1, n as int);
        law_adjustment_follows_a_huffman_book(n as int, sel[ch - 1][n as int]);
    } else if n > 0 {
        lemma_adj_bits(l, (n - 1) as nat, l.nch);
    }
}

/// A selector fits in its bits and in a byte.
proof fn lemma_selector(l: AudioCodingLayout, ch: int, n: int)
    requires
        0 <= ch < l.nch,
        0 <= n < 10,
    ensures
        l.sel(ch, n) < pow2(sel_width(n)),
        l.contents().sel[ch][n] == l.sel(ch, n),
{
    lemma2_to64();
    lemma_field_bound(
        l.s,
        l.sel_start() + sel_bits_before(l.nch, n as nat, ch as nat),
        sel_width(n),
    );
}

/// Where the fields of a header that was read stand: the number of subframes minus one
/// in four bits, the number of channels minus one in three, and then, each for all
/// channels in turn: subbands minus two and first vector-quantized subband minus one
/// in five bits, joint source in three, and the selectors of the transient, scale
/// factor and bit allocation books in two, three and three.
pub proof fn law_header_fields_stand_in_order(
    s: Seq<u8>,
    off: int,
    cpf: bool,
    h: AudioCodingView,
    bits: nat,
    ch: int,
)
    requires
        0 <= off,
        audio_coding_header(s, off, cpf) == Ok::<(AudioCodingView, nat), Error>((h, bits)),
        0 <= ch < h.n_pchs,
    ensures
        h.n_subframes == field(s, off, 4) + 1,
        h.n_pchs == field(s, off + 4, 3) + 1,
        h.n_pchs <= 5,
        h.joinx.len() == h.n_pchs,
        h.channel_params.len() == h.n_pchs,
        h.channel_params[ch].n_subs == field(s, off + 7 + 5 * ch, 5) + 2,
        h.channel_params[ch].n_subs <= 32,
        h.channel_params[ch].n_vqsub == field(s, off + 7 + 5 * h.n_pchs + 5 * ch, 5) + 1,
        h.channel_params[ch].n_vqsub <= h.channel_params[ch].n_subs,
        h.joinx[ch] == field(s, off + 7 + 10 * h.n_pchs + 3 * ch, 3),
        h.channel_params[ch].tmode_codebook == (match field(
            s,
            off + 7 + 13 * h.n_pchs + 2 * ch,
            2,
        ) as u8 {
            0 => TmodeCodebook::A4,
            1 => TmodeCodebook::B4,
            2 => TmodeCodebook::C4,
            _ => TmodeCodebook::D4,
        }),
        field(s, off + 7 + 15 * h.n_pchs + 3 * ch, 3) < 7,
        h.channel_params[ch].scales_codebook == (match field(
            s,
            off + 7 + 15 * h.n_pchs + 3 * ch,
            3,
        ) as u8 {
            0 => ScalesCodebook::Sa129,
            1 => ScalesCodebook::Sb129,
            2 => ScalesCodebook::Sc129,
            3 => ScalesCodebook::Sd129,
            4 => ScalesCodebook::Se129,
            5 => ScalesCodebook::Linear6Bit,
            _ => ScalesCodebook::Linear7Bit,
        }),
        field(s, off + 7 + 18 * h.n_pchs + 3 * ch, 3) < 7,
        h.channel_params[ch].abits_codebook == (match field(
            s,
            off + 7 + 18 * h.n_pchs + 3 * ch,
            3,
        ) as u8 {
            0 => AbitsCodebook::A12,
            1 => AbitsCodebook::B12,
            2 => AbitsCodebook::C12,
            3 => AbitsCodebook::D12,
            4 => AbitsCodebook::E12,
            5 => AbitsCodebook::Linear4Bit,
            _ => AbitsCodebook::Linear5Bit,
        }),
{
    let l: AudioCodingLayout = layout_at(s, off);
    lemma2_to64();
    lemma_field_bound(s, off + 7 + 5 * ch, 5);
    lemma_field_bound(s, off + 7 + 5 * h.n_pchs + 5 * ch, 5);
    lemma_field_bound(s, off + 7 + 10 * h.n_pchs + 3 * ch, 3);
    lemma_field_bound(s, off + 7 + 13 * h.n_pchs + 2 * ch, 2);
    lemma_field_bound(s, off + 7 + 15 * h.n_pchs + 3 * ch, 3);
    lemma_field_bound(s, off + 7 + 18 * h.n_pchs + 3 * ch, 3);
    lemma_no_errors(l, 0, ch);
    assert(h.channel_params[ch] == l.params(ch));
    assert(h.joinx[ch] == l.joinx(ch) as u8);
}

/// A channel behind which no error was found has none.
proof fn lemma_no_errors(l: AudioCodingLayout, from: nat, ch: int)
    requires
        from <= ch < l.nch,
        l.subs_error(from) is None,
        l.vqsub_error(from) is None,
        l.book_error(from) is None,
    ensures
        l.n_subs(ch) <= 32,
        l.n_vqsub(ch) <= l.n_subs(ch),
        l.bhuff(ch) != 7,
        l.shuff(ch) != 7,
    decreases l.nch - from,
{
    if from < ch {
        lemma_no_errors(l, from + 1, ch);
    }
}

/// Where the selectors of a header that was read stand: behind the fields of the
/// channels, index by index and there channel by channel. The first one has one bit,
/// the next four have two, the next five have three, and the others are zero.
pub proof fn law_selectors_stand_in_order(
    s: Seq<u8>,
    off: int,
    cpf: bool,
    h: AudioCodingView,
    bits: nat,
    ch: int,
    n: int,
)
    requires
        0 <= off,
        audio_coding_header(s, off, cpf) == Ok::<(AudioCodingView, nat), Error>((h, bits)),
        0 <= ch < h.n_pchs,
        0 <= n < 26,
    ensures
        h.sel.len() == h.n_pchs,
        h.sel[ch].len() == 26,
        n == 0 ==> h.sel[ch][n] == field(s, off + 7 + 21 * h.n_pchs + ch, 1),
        1 <= n <= 4 ==> h.sel[ch][n] == field(
            s,
            off + 7 + 22 * h.n_pchs + 2 * ((n - 1) * h.n_pchs + ch),
            2,
        ),
        5 <= n <= 9 ==> h.sel[ch][n] == field(
            s,
            off + 7 + 30 * h.n_pchs + 3 * ((n - 5) * h.n_pchs + ch),
            3,
        ),
        10 <= n ==> h.sel[ch][n] == 0,
{
    let l: AudioCodingLayout = layout_at(s, off);
    let nch: nat = l.nch;
    assert(h == l.contents());
    if n < 10 {
        lemma_selector(l, ch, n);
        lemma_sel_bits(nch, n as nat, ch as nat);
        lemma_sel_bases();
        let at: int = l.sel_start() + sel_bits_before(nch, n as nat, ch as nat);
        assert(l.sel(ch, n) == field(s, at, sel_width(n)));
        if n == 0 {
            assert(sel_base(n as nat) * nch == 0) by (nonlinear_arith)
                requires
                    sel_base(n as nat) == 0,
            ;
            assert(sel_width(n) * ch == ch) by (nonlinear_arith)
                requires
                    sel_width(n) == 1,
            ;
            assert(at == off + 7 + 21 * nch + ch);
        } else if n <= 4 {
            assert(sel_base(n as nat) == 1 + 2 * (n - 1));
            let b: int = 1 + 2 * (n - 1);
            assert(sel_base(n as nat) * nch == b * nch);
            assert(sel_width(n) * ch == 2 * ch);
            assert(b * nch == nch + 2 * ((n - 1) * nch)) by (nonlinear_arith)
                requires
                    b == 1 + 2 * (n - 1),
            ;
            assert(at == off + 7 + 22 * nch + 2 * ((n - 1) * nch + ch));
        } else {
            assert(sel_base(n as nat) == 9 + 3 * (n - 5));
            let b: int = 9 + 3 * (n - 5);
            assert(sel_base(n as nat) * nch == b * nch);
            assert(sel_width(n) * ch == 3 * ch);
            assert(b * nch == 9 * nch + 3 * ((n - 5) * nch)) by (nonlinear_arith)
                requires
                    b == 9 + 3 * (n - 5),
            ;
            assert(at == off + 7 + 30 * nch + 3 * ((n - 5) * nch + ch));
        }
    }
}

/// Where the adjustments of a header that was read stand: behind the selectors, two
/// bits for each selector that picks a Huffman book, in the order of the selectors.
/// There is none for the others. Behind them come 16 bits of a check word, where there
/// is one, and then the header ends.
pub proof fn law_adjustments_stand_in_order(
    s: Seq<u8>,
    off: int,
    cpf: bool,
    h: AudioCodingView,
    bits: nat,
    ch: int,
    n: int,
)
    requires
        0 <= off,
        audio_coding_header(s, off, cpf) == Ok::<(AudioCodingView, nat), Error>((h, bits)),
        0 <= ch < h.n_pchs,
        0 <= n < 26,
    ensures
        h.adj.len() == h.n_pchs,
        h.adj[ch].len() == 26,
        n < 10 && quant_type((n + 1) as u8, h.sel[ch][n]) == AudioQuantType::Huffman
            ==> h.adj[ch][n] == (match field(
            s,
            off + 7 + 45 * h.n_pchs + 2 * huffman_before(h.sel, n as nat, ch as nat),
            2,
        ) as u8 {
            0 => ScaleFactorAdjustment::Adj0,
            1 => ScaleFactorAdjustment::Adj1,
            2 => ScaleFactorAdjustment::Adj2,
            _ => ScaleFactorAdjustment::Adj3,
        }),
        n >= 10 || quant_type((n + 1) as u8, h.sel[ch][n]) != AudioQuantType::Huffman
            ==> h.adj[ch][n] == ScaleFactorAdjustment::Adj0,
        bits == 7 + 45 * h.n_pchs + 2 * huffman_before(h.sel, 10, 0) + (if cpf {
            16int
        } else {
            0int
        }),
        off + bits <= 8 * s.len(),
{
    let l: AudioCodingLayout = layout_at(s, off);
    let nch: nat = l.nch;
    assert(h == l.contents());
    lemma_sel_bits(nch, 10, 0);
    lemma_sel_bases();
    assert(sel_bits_before(nch, 10, 0) == 24 * nch);
    assert(l.adj_start() == off + 7 + 45 * nch);
    lemma_adj_bits(l, 10, 0);
    if n < 10 {
        lemma_adj_bits(l, n as nat, ch as nat);
        lemma_selector(l, ch, n);
        law_adjustment_follows_a_huffman_book(n, h.sel[ch][n]);
        assert(h.adj[ch][n] == l.adj(ch, n));
        lemma2_to64();
        lemma_field_bound(s, l.adj_start() + l.adj_bits_before(n as nat, ch as nat), 2);
    }
}

/// A header of at most five channels that has room is refused only where a channel is
/// out of range: it has more than 32 subbands, it is vector quantized from behind its
/// last subband on, or it has a reserved code book.
pub proof fn law_what_headers_are_read(s: Seq<u8>, off: int, cpf: bool)
    requires
        0 <= off,
        audio_coding_header(s, off, cpf) is Err,
        off + 7 <= 8 * s.len(),
        field(s, off + 4, 3) < 5,
        off + 7 + 65 * (field(s, off + 4, 3) + 1) + 16 <= 8 * s.len(),
    ensures
        exists|ch: int|
            0 <= ch <= field(s, off + 4, 3) && {
                let nch: nat = field(s, off + 4, 3) + 1;
                ||| field(s, off + 7 + 5 * ch, 5) + 2 > 32
                ||| field(s, off + 7 + 5 * nch + 5 * ch, 5) + 1 > #[trigger] field(
                    s,
                    off + 7 + 5 * ch,
                    5,
                ) + 2
                ||| field(s, off + 7 + 15 * nch + 3 * ch, 3) == 7
                ||| field(s, off + 7 + 18 * nch + 3 * ch, 3) == 7
            },
{
    let l: AudioCodingLayout = layout_at(s, off);
    let nch: nat = l.nch;
    lemma_sel_bits(nch, 10, 0);
    lemma_sel_bases();
    lemma_adj_bits(l, 10, 0);
    lemma_count(l.contents().sel, 10, 0);
    assert(l.end(cpf) <= 8 * s.len());
    let bad: int = lemma_first_error(l, 0);
    assert(field(s, off + 7 + 5 * bad, 5) >= 0);
}

/// There are at most ten Huffman books for each channel.
proof fn lemma_count(sel: Seq<Seq<u8>>, n: nat, ch: nat)
    requires
        ch <= sel.len(),
    ensures
        huffman_before(sel, n, ch) <= n * sel.len() + ch,
    decreases n, ch,
{
    if ch > 0 {
        lemma_count(sel, n, (ch - 1) as nat);
    } else if n > 0 {
        lemma_count(sel, (n - 1) as nat, sel.len());
        assert((n - 1) * sel.len() + sel.len() == n * sel.len()) by (nonlinear_arith);
    } else {
        assert(n * sel.len() == 0) by (nonlinear_arith)
            requires
                n == 0,
        ;
    }
}

/// Where a header that fits is refused, a channel is out of range.
proof fn lemma_first_error(l: AudioCodingLayout, from: nat) -> (bad: int)
    requires
        l.nch <= 5,
        from < l.nch,
        l.off + 7 + 45 * l.nch <= 8 * l.s.len(),
        l.subs_error(from) is Some || l.vqsub_error(from) is Some || l.book_error(from) is Some,
    ensures
        from <= bad < l.nch,
        l.n_subs(bad) > 32 || l.n_vqsub(bad) > l.n_subs(bad) || l.shuff(bad) == 7 || l.bhuff(bad)
            == 7,
    decreases l.nch - from,
{
    if l.n_subs(from as int) > 32 || l.n_vqsub(from as int) > l.n_subs(from as int) || l.shuff(
        from as int,
    ) == 7 || l.bhuff(from as int) == 7 {
        from as int
    } else {
        lemma_first_error(l, from + 1)
    }
}

/// Behind channels with subband counts in range, the error is that of the rest.
proof fn lemma_subs_error_behind(l: AudioCodingLayout, from: nat, ch: nat)
    requires
        from <= ch <= l.nch,
        l.off + 7 + 5 * ch <= 8 * l.s.len(),
        forall|c: int| from <= c < ch ==> #[trigger] l.n_subs(c) <= 32,
    ensures
        l.subs_error(from) == l.subs_error(ch),
    decreases ch - from,
{
    if from < ch {
        assert(l.n_subs(from as int) <= 32);
        lemma_subs_error_behind(l, from + 1, ch);
    }
}

/// Behind channels that are vector quantized in range, the error is that of the rest.
proof fn lemma_vqsub_error_behind(l: AudioCodingLayout, from: nat, ch: nat)
    requires
        from <= ch <= l.nch,
        l.off + 7 + 5 * l.nch + 5 * ch <= 8 * l.s.len(),
        forall|c: int| from <= c < ch ==> #[trigger] l.n_vqsub(c) <= l.n_subs(c),
    ensures
        l.vqsub_error(from) == l.vqsub_error(ch),
    decreases ch - from,
{
    if from < ch {
        assert(l.n_vqsub(from as int) <= l.n_subs(from as int));
        lemma_vqsub_error_behind(l, from + 1, ch);
    }
}

/// Behind channels without reserved code books, the error is that of the rest.
proof fn lemma_book_error_behind(l: AudioCodingLayout, from: nat, ch: nat)
    requires
        from <= ch <= l.nch,
        forall|c: int| from <= c < ch ==> #[trigger] l.bhuff(c) != 7 && l.shuff(c) != 7,
    ensures
        l.book_error(from) == l.book_error(ch),
    decreases ch - from,
{
    if from < ch {
        assert(l.bhuff(from as int) != 7);
        lemma_book_error_behind(l, from + 1, ch);
    }
}

/// A header without room for its first seven bits ends too early, and one with more than
/// five channels names their number.
pub proof fn law_too_many_channels_are_named(s: Seq<u8>, off: int, cpf: bool)
    ensures
        off + 7 > 8 * s.len() ==> audio_coding_header(s, off, cpf) == Err::<
            (AudioCodingView, nat),
            Error,
        >(Error::UnexpectedEof),
        off + 7 <= 8 * s.len() && field(s, off + 4, 3) >= 5 ==> audio_coding_header(s, off, cpf)
            == Err::<(AudioCodingView, nat), Error>(
            Error::InvalidSideInfo { field: "nPCHS", value: (field(s, off + 4, 3) + 1) as u32 },
        ),
{
}

/// The first channel whose subband count is cut off or above 32 decides: the header ends
/// too early, or the count is named.
pub proof fn law_first_bad_subband_count_is_named(s: Seq<u8>, off: int, cpf: bool, ch: int)
    requires
        field(s, off + 4, 3) < 5,
        0 <= ch <= field(s, off + 4, 3),
        off + 7 + 5 * ch <= 8 * s.len(),
        forall|c: int| 0 <= c < ch ==> #[trigger] field(s, off + 7 + 5 * c, 5) <= 30,
    ensures
        off + 7 + 5 * (ch + 1) > 8 * s.len() ==> audio_coding_header(s, off, cpf) == Err::<
            (AudioCodingView, nat),
            Error,
        >(Error::UnexpectedEof),
        off + 7 + 5 * (ch + 1) <= 8 * s.len() && field(s, off + 7 + 5 * ch, 5) > 30
            ==> audio_coding_header(s, off, cpf) == Err::<(AudioCodingView, nat), Error>(
            Error::InvalidSideInfo {
                field: "nSUBS",
                value: (field(s, off + 7 + 5 * ch, 5) + 2) as u32,
            },
        ),
{
    let l: AudioCodingLayout = layout_at(s, off);
    assert forall|c: int| 0 <= c < ch implies #[trigger] l.n_subs(c) <= 32 by {
        assert(field(s, off + 7 + 5 * c, 5) <= 30);
    }
    lemma_subs_error_behind(l, 0, ch as nat);
}

/// Where all subband counts are in range, the first channel whose first vector-quantized
/// subband is cut off or lies behind its subbands decides.
pub proof fn law_first_bad_quantized_subband_is_named(s: Seq<u8>, off: int, cpf: bool, ch: int)
    requires
        field(s, off + 4, 3) < 5,
        0 <= ch <= field(s, off + 4, 3),
        off + 7 + 5 * (field(s, off + 4, 3) + 1) + 5 * ch <= 8 * s.len(),
        forall|c: int|
            0 <= c <= field(s, off + 4, 3) ==> #[trigger] field(s, off + 7 + 5 * c, 5) <= 30,
        forall|c: int|
            0 <= c < ch ==> {
                let nch: nat = field(s, off + 4, 3) + 1;
                field(s, off + 7 + 5 * nch + 5 * c, 5) + 1 <= #[trigger] field(
                    s,
                    off + 7 + 5 * c,
                    5,
                ) + 2
            },
    ensures
        ({
            let nch: nat = field(s, off + 4, 3) + 1;
            let at: int = off + 7 + 5 * nch + 5 * ch;
            &&& at + 5 > 8 * s.len() ==> audio_coding_header(s, off, cpf) == Err::<
                (AudioCodingView, nat),
                Error,
            >(Error::UnexpectedEof)
            &&& at + 5 <= 8 * s.len() && field(s, at, 5) + 1 > field(s, off + 7 + 5 * ch, 5) + 2
                ==> audio_coding_header(s, off, cpf) == Err::<(AudioCodingView, nat), Error>(
                Error::InvalidSideInfo { field: "VQSUB", value: (field(s, at, 5) + 1) as u32 },
            )
        }),
{
    let l: AudioCodingLayout = layout_at(s, off);
    assert forall|c: int| 0 <= c < l.nch implies #[trigger] l.n_subs(c) <= 32 by {
        assert(field(s, off + 7 + 5 * c, 5) <= 30);
    }
    lemma_subs_error_behind(l, 0, l.nch);
    assert forall|c: int| 0 <= c < ch implies #[trigger] l.n_vqsub(c) <= l.n_subs(c) by {
        assert(field(s, off + 7 + 5 * c, 5) <= 30);
    }
    lemma_vqsub_error_behind(l, 0, ch as nat);
}

/// Where all subbands are in range and there is room for the longest header, the first
/// channel with a reserved code book decides, and in it the book of the allocation
/// indices before that of the scale factors.
pub proof fn law_first_reserved_book_is_named(s: Seq<u8>, off: int, cpf: bool, ch: int)
    requires
        0 <= off,
        field(s, off + 4, 3) < 5,
        off + 7 + 65 * (field(s, off + 4, 3) + 1) + 16 <= 8 * s.len(),
        0 <= ch <= field(s, off + 4, 3),
        forall|c: int|
            0 <= c <= field(s, off + 4, 3) ==> {
                let nch: nat = field(s, off + 4, 3) + 1;
                &&& #[trigger] field(s, off + 7 + 5 * c, 5) <= 30
                &&& field(s, off + 7 + 5 * nch + 5 * c, 5) + 1 <= field(s, off + 7 + 5 * c, 5) + 2
            },
        forall|c: int|
            0 <= c < ch ==> {
                &&& #[trigger] field(s, off + 7 + 18 * (field(s, off + 4, 3) + 1) + 3 * c, 3) != 7
                &&& field(s, off + 7 + 15 * (field(s, off + 4, 3) + 1) + 3 * c, 3) != 7
            },
    ensures
        ({
            let nch: nat = field(s, off + 4, 3) + 1;
            let allocation: nat = field(s, off + 7 + 18 * nch + 3 * ch, 3);
            let scales: nat = field(s, off + 7 + 15 * nch + 3 * ch, 3);
            &&& allocation == 7 ==> audio_coding_header(s, off, cpf) == Err::<
                (AudioCodingView, nat),
                Error,
            >(Error::InvalidSideInfo { field: "BHUFF", value: 7 })
            &&& allocation != 7 && scales == 7 ==> audio_coding_header(s, off, cpf) == Err::<
                (AudioCodingView, nat),
                Error,
            >(Error::InvalidSideInfo { field: "SHUFF", value: 7 })
        }),
{
    let l: AudioCodingLayout = layout_at(s, off);
    let nch: nat = l.nch;
    lemma_sel_bits(nch, 10, 0);
    lemma_sel_bases();
    lemma_adj_bits(l, 10, 0);
    lemma_count(l.contents().sel, 10, 0);
    assert(l.end(cpf) <= 8 * s.len());
    assert forall|c: int| 0 <= c < nch implies #[trigger] l.n_subs(c) <= 32 by {
        assert(field(s, off + 7 + 5 * c, 5) <= 30);
    }
    lemma_subs_error_behind(l, 0, nch);
    assert forall|c: int| 0 <= c < nch implies #[trigger] l.n_vqsub(c) <= l.n_subs(c) by {
        assert(field(s, off + 7 + 5 * c, 5) <= 30);
    }
    lemma_vqsub_error_behind(l, 0, nch);
    assert forall|c: int| 0 <= c < ch implies #[trigger] l.bhuff(c) != 7 && l.shuff(c) != 7 by {
        assert(field(s, off + 7 + 18 * nch + 3 * c, 3) != 7);
    }
    lemma_book_error_behind(l, 0, ch as nat);
}

} // verus!
