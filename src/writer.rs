//! Writing the digits of a magnitude into a buffer, from the last byte
//! backward, since how many there are is known only at the end.
use crate::lookup::{lemma_alphabet, lemma_dec_pair, ALPHABET, DEC_PAIRS};
use crate::numeral::{
    digit_char, digits, lemma_decimal_pair, lemma_decimal_pair_step, lemma_digits_len_pos,
    lemma_split_four, pair_chars,
};
use vstd::prelude::*;

verus! {

/// `after` is `before` with `text` written so that it ends just before `end`.
pub open spec fn placed(before: Seq<u8>, after: Seq<u8>, end: int, text: Seq<u8>) -> bool {
    &&& after.len() == before.len()
    &&& text.len() <= end <= before.len()
    &&& after == before.subrange(0, end - text.len()) + text + before.subrange(
        end,
        before.len() as int,
    )
}

/// The state of a writer that has filled `[pos, end)` of `now`: what is there,
/// after the digits `rest` still to come, makes `text`, and the bytes outside
/// are those of `before`.
pub open spec fn filling(
    before: Seq<u8>,
    now: Seq<u8>,
    pos: int,
    end: int,
    rest: Seq<u8>,
    text: Seq<u8>,
) -> bool {
    &&& now.len() == before.len()
    &&& 0 <= pos <= end <= now.len()
    &&& text.len() <= end
    &&& text == rest + now.subrange(pos, end)
    &&& now.subrange(0, pos) == before.subrange(0, pos)
    &&& now.subrange(end, now.len() as int) == before.subrange(end, before.len() as int)
}

/// Writing `chunk` just before the filled part moves the writer on by its length.
proof fn lemma_advance(
    before: Seq<u8>,
    prev: Seq<u8>,
    now: Seq<u8>,
    pos: int,
    new_pos: int,
    end: int,
    rest: Seq<u8>,
    chunk: Seq<u8>,
    text: Seq<u8>,
)
    requires
        filling(before, prev, pos, end, rest + chunk, text),
        0 <= new_pos,
        new_pos + chunk.len() == pos,
        now == prev.subrange(0, new_pos) + chunk + prev.subrange(pos, prev.len() as int),
    ensures
        filling(before, now, new_pos, end, rest, text),
{
    assert(now.subrange(new_pos, end) =~= chunk + prev.subrange(pos, end));
    assert(text =~= rest + now.subrange(new_pos, end));
    assert(now.subrange(0, new_pos) =~= prev.subrange(0, new_pos));
    assert(prev.subrange(0, new_pos) =~= prev.subrange(0, pos).subrange(0, new_pos));
    assert(before.subrange(0, new_pos) =~= before.subrange(0, pos).subrange(0, new_pos));
    assert(now.subrange(end, now.len() as int) =~= prev.subrange(end, prev.len() as int));
}

/// A writer with no digits left has placed all of `text`.
proof fn lemma_filled(before: Seq<u8>, now: Seq<u8>, pos: int, end: int, text: Seq<u8>)
    requires
        filling(before, now, pos, end, Seq::empty(), text),
    ensures
        pos == end - text.len(),
        placed(before, now, end, text),
{
    assert(text =~= now.subrange(pos, end));
    assert(now =~= now.subrange(0, pos) + now.subrange(pos, end) + now.subrange(
        end,
        now.len() as int,
    ));
}

/// Writes the character of digit `d` just before `pos`.
fn put_digit(buf: &mut [u8], pos: usize, d: usize)
    requires
        1 <= pos <= old(buf)@.len(),
        d < 36,
    ensures
        final(buf)@ == old(buf)@.subrange(0, pos - 1) + seq![digit_char(d as nat)]
            + old(buf)@.subrange(pos as int, old(buf)@.len() as int),
{
    proof {
        lemma_alphabet(d as int);
    }
    buf[pos - 1] = ALPHABET[d];
    assert(buf@ =~= old(buf)@.subrange(0, pos - 1) + seq![digit_char(d as nat)]
        + old(buf)@.subrange(pos as int, old(buf)@.len() as int));
}

/// Writes the two decimal digits of `k` just before `pos`, from the pair table.
fn put_pair(buf: &mut [u8], pos: usize, k: usize)
    requires
        2 <= pos <= old(buf)@.len(),
        k < 100,
    ensures
        final(buf)@ == old(buf)@.subrange(0, pos - 2) + pair_chars(k as nat) + old(buf)@.subrange(
            pos as int,
            old(buf)@.len() as int,
        ),
{
    proof {
        lemma_dec_pair(k as int);
    }
    buf[pos - 2] = DEC_PAIRS[2 * k];
    buf[pos - 1] = DEC_PAIRS[2 * k + 1];
    assert(buf@ =~= old(buf)@.subrange(0, pos - 2) + pair_chars(k as nat) + old(buf)@.subrange(
        pos as int,
        old(buf)@.len() as int,
    ));
}

/// Writes the digits of `num` in base `base`, one division for each, so that
/// they end just before `end`, and returns where they start.
pub fn write_digits_u128(num: u128, base: u128, buf: &mut [u8], end: usize) -> (start: usize)
    requires
        2 <= base <= 36,
        end <= old(buf)@.len(),
        digits(num as nat, base as nat).len() <= end,
    ensures
        start == end - digits(num as nat, base as nat).len(),
        placed(old(buf)@, final(buf)@, end as int, digits(num as nat, base as nat)),
{
    let ghost text = digits(num as nat, base as nat);
    let mut n = num;
    let mut pos = end;
    proof {
        assert(text =~= text + buf@.subrange(end as int, end as int));
    }
    while n >= base
        invariant
            2 <= base <= 36,
            filling(old(buf)@, buf@, pos as int, end as int, digits(n as nat, base as nat), text),
        decreases n,
    {
        let ghost prev = buf@;
        let rem = n % base;
        let q = n / base;
        proof {
            lemma_digits_len_pos(q as nat, base as nat);
            assert(digits(n as nat, base as nat) =~= digits(q as nat, base as nat) + seq![
                digit_char(rem as nat),
            ]);
        }
        put_digit(buf, pos, rem as usize);
        proof {
            lemma_advance(old(buf)@, prev, buf@, pos as int, pos - 1, end as int,
                digits(q as nat, base as nat), seq![digit_char(rem as nat)], text);
        }
        pos = pos - 1;
        n = q;
    }
    let ghost prev = buf@;
    proof {
        assert(digits(n as nat, base as nat) =~= Seq::empty() + seq![digit_char(n as nat)]);
    }
    put_digit(buf, pos, n as usize);
    proof {
        lemma_advance(old(buf)@, prev, buf@, pos as int, pos - 1, end as int, Seq::empty(),
            seq![digit_char(n as nat)], text);
        lemma_filled(old(buf)@, buf@, pos - 1, end as int, text);
    }
    pos - 1
}

/// Writes the decimal digits of `num` so that they end just before `end`, and
/// returns where they start. It takes four digits for each division, and
/// reads them from the pair table two at a time.
pub fn write_decimal_u128(num: u128, buf: &mut [u8], end: usize) -> (start: usize)
    requires
        end <= old(buf)@.len(),
        digits(num as nat, 10).len() <= end,
    ensures
        start == end - digits(num as nat, 10).len(),
        placed(old(buf)@, final(buf)@, end as int, digits(num as nat, 10)),
{
    let ghost text = digits(num as nat, 10);
    let mut n = num;
    let mut pos = end;
    proof {
        assert(text =~= text + buf@.subrange(end as int, end as int));
    }
    while n > 9999
        invariant
            filling(old(buf)@, buf@, pos as int, end as int, digits(n as nat, 10), text),
        decreases n,
    {
        let rem = (n % 10000) as usize;
        let q = n / 10000;
        let ghost mid = n / 100;
        proof {
            lemma_decimal_pair_step(n as nat);
            lemma_decimal_pair_step(mid as nat);
            lemma_digits_len_pos(q as nat, 10);
            lemma_split_four(n as nat);
        }
        let ghost prev = buf@;
        put_pair(buf, pos, rem % 100);
        proof {
            lemma_advance(old(buf)@, prev, buf@, pos as int, pos - 2, end as int,
                digits(mid as nat, 10), pair_chars((rem % 100) as nat), text);
        }
        let ghost prev = buf@;
        put_pair(buf, pos - 2, rem / 100);
        proof {
            lemma_advance(old(buf)@, prev, buf@, pos - 2, pos - 4, end as int,
                digits(q as nat, 10), pair_chars((rem / 100) as nat), text);
        }
        pos = pos - 4;
        n = q;
    }
    let ghost prev = buf@;
    if n > 999 {
        proof {
            lemma_decimal_pair_step(n as nat);
            lemma_decimal_pair((n / 100) as nat);
        }
        put_pair(buf, pos, (n % 100) as usize);
        proof {
            lemma_advance(old(buf)@, prev, buf@, pos as int, pos - 2, end as int,
                digits((n / 100) as nat, 10), pair_chars((n % 100) as nat), text);
        }
        let ghost prev = buf@;
        put_pair(buf, pos - 2, (n / 100) as usize);
        proof {
            assert(digits((n / 100) as nat, 10) =~= Seq::empty() + pair_chars((n / 100) as nat));
            lemma_advance(old(buf)@, prev, buf@, pos - 2, pos - 4, end as int, Seq::empty(),
                pair_chars((n / 100) as nat), text);
        }
        pos = pos - 4;
    } else if n > 99 {
        proof {
            lemma_decimal_pair((n / 10) as nat);
            assert(digits(n as nat, 10) =~= digits((n / 10) as nat, 10) + seq![
                digit_char((n % 10) as nat),
            ]);
        }
        put_digit(buf, pos, (n % 10) as usize);
        proof {
            lemma_advance(old(buf)@, prev, buf@, pos as int, pos - 1, end as int,
                digits((n / 10) as nat, 10), seq![digit_char((n % 10) as nat)], text);
        }
        let ghost prev = buf@;
        put_pair(buf, pos - 1, (n / 10) as usize);
        proof {
            assert(digits((n / 10) as nat, 10) =~= Seq::empty() + pair_chars((n / 10) as nat));
            lemma_advance(old(buf)@, prev, buf@, pos - 1, pos - 3, end as int, Seq::empty(),
                pair_chars((n / 10) as nat), text);
        }
        pos = pos - 3;
    } else if n > 9 {
        proof {
            lemma_decimal_pair(n as nat);
            assert(digits(n as nat, 10) =~= Seq::empty() + pair_chars(n as nat));
        }
        put_pair(buf, pos, n as usize);
        proof {
            lemma_advance(old(buf)@, prev, buf@, pos as int, pos - 2, end as int, Seq::empty(),
                pair_chars(n as nat), text);
        }
        pos = pos - 2;
    } else {
        proof {
            assert(digits(n as nat, 10) =~= Seq::empty() + seq![digit_char(n as nat)]);
        }
        put_digit(buf, pos, n as usize);
        proof {
            lemma_advance(old(buf)@, prev, buf@, pos as int, pos - 1, end as int, Seq::empty(),
                seq![digit_char(n as nat)], text);
        }
        pos = pos - 1;
    }
    proof {
        lemma_filled(old(buf)@, buf@, pos as int, end as int, text);
    }
    pos
}

/// Writes the digits of `num` in base `base`, one division for each, so that
/// they end just before `end`, and returns where they start.
pub fn write_digits_u64(num: u64, base: u64, buf: &mut [u8], end: usize) -> (start: usize)
    requires
        2 <= base <= 36,
        end <= old(buf)@.len(),
        digits(num as nat, base as nat).len() <= end,
    ensures
        start == end - digits(num as nat, base as nat).len(),
        placed(old(buf)@, final(buf)@, end as int, digits(num as nat, base as nat)),
{
    let ghost text = digits(num as nat, base as nat);
    let mut n = num;
    let mut pos = end;
    proof {
        assert(text =~= text + buf@.subrange(end as int, end as int));
    }
    while n >= base
        invariant
            2 <= base <= 36,
            filling(old(buf)@, buf@, pos as int, end as int, digits(n as nat, base as nat), text),
        decreases n,
    {
        let ghost prev = buf@;
        let rem = n % base;
        let q = n / base;
        proof {
            lemma_digits_len_pos(q as nat, base as nat);
            assert(digits(n as nat, base as nat) =~= digits(q as nat, base as nat) + seq![
                digit_char(rem as nat),
            ]);
        }
        put_digit(buf, pos, rem as usize);
        proof {
            lemma_advance(old(buf)@, prev, buf@, pos as int, pos - 1, end as int,
                digits(q as nat, base as nat), seq![digit_char(rem as nat)], text);
        }
        pos = pos - 1;
        n = q;
    }
    let ghost prev = buf@;
    proof {
        assert(digits(n as nat, base as nat) =~= Seq::empty() + seq![digit_char(n as nat)]);
    }
    put_digit(buf, pos, n as usize);
    proof {
        lemma_advance(old(buf)@, prev, buf@, pos as int, pos - 1, end as int, Seq::empty(),
            seq![digit_char(n as nat)], text);
        lemma_filled(old(buf)@, buf@, pos - 1, end as int, text);
    }
    pos - 1
}

/// Writes the decimal digits of `num` so that they end just before `end`, and
/// returns where they start. It takes four digits for each division, and
/// reads them from the pair table two at a time.
pub fn write_decimal_u64(num: u64, buf: &mut [u8], end: usize) -> (start: usize)
    requires
        end <= old(buf)@.len(),
        digits(num as nat, 10).len() <= end,
    ensures
        start == end - digits(num as nat, 10).len(),
        placed(old(buf)@, final(buf)@, end as int, digits(num as nat, 10)),
{
    let ghost text = digits(num as nat, 10);
    let mut n = num;
    let mut pos = end;
    proof {
        assert(text =~= text + buf@.subrange(end as int, end as int));
    }
    while n > 9999
        invariant
            filling(old(buf)@, buf@, pos as int, end as int, digits(n as nat, 10), text),
        decreases n,
    {
        let rem = (n % 10000) as usize;
        let q = n / 10000;
        let ghost mid = n / 100;
        proof {
            lemma_decimal_pair_step(n as nat);
            lemma_decimal_pair_step(mid as nat);
            lemma_digits_len_pos(q as nat, 10);
            lemma_split_four(n as nat);
        }
        let ghost prev = buf@;
        put_pair(buf, pos, rem % 100);
        proof {
            lemma_advance(old(buf)@, prev, buf@, pos as int, pos - 2, end as int,
                digits(mid as nat, 10), pair_chars((rem % 100) as nat), text);
        }
        let ghost prev = buf@;
        put_pair(buf, pos - 2, rem / 100);
        proof {
            lemma_advance(old(buf)@, prev, buf@, pos - 2, pos - 4, end as int,
                digits(q as nat, 10), pair_chars((rem / 100) as nat), text);
        }
        pos = pos - 4;
        n = q;
    }
    let ghost prev = buf@;
    if n > 999 {
        proof {
            lemma_decimal_pair_step(n as nat);
            lemma_decimal_pair((n / 100) as nat);
        }
        put_pair(buf, pos, (n % 100) as usize);
        proof {
            lemma_advance(old(buf)@, prev, buf@, pos as int, pos - 2, end as int,
                digits((n / 100) as nat, 10), pair_chars((n % 100) as nat), text);
        }
        let ghost prev = buf@;
        put_pair(buf, pos - 2, (n / 100) as usize);
        proof {
            assert(digits((n / 100) as nat, 10) =~= Seq::empty() + pair_chars((n / 100) as nat));
            lemma_advance(old(buf)@, prev, buf@, pos - 2, pos - 4, end as int, Seq::empty(),
                pair_chars((n / 100) as nat), text);
        }
        pos = pos - 4;
    } else if n > 99 {
        proof {
            lemma_decimal_pair((n / 10) as nat);
            assert(digits(n as nat, 10) =~= digits((n / 10) as nat, 10) + seq![
                digit_char((n % 10) as nat),
            ]);
        }
        put_digit(buf, pos, (n % 10) as usize);
        proof {
            lemma_advance(old(buf)@, prev, buf@, pos as int, pos - 1, end as int,
                digits((n / 10) as nat, 10), seq![digit_char((n % 10) as nat)], text);
        }
        let ghost prev = buf@;
        put_pair(buf, pos - 1, (n / 10) as usize);
        proof {
            assert(digits((n / 10) as nat, 10) =~= Seq::empty() + pair_chars((n / 10) as nat));
            lemma_advance(old(buf)@, prev, buf@, pos - 1, pos - 3, end as int, Seq::empty(),
                pair_chars((n / 10) as nat), text);
        }
        pos = pos - 3;
    } else if n > 9 {
        proof {
            lemma_decimal_pair(n as nat);
            assert(digits(n as nat, 10) =~= Seq::empty() + pair_chars(n as nat));
        }
        put_pair(buf, pos, n as usize);
        proof {
            lemma_advance(old(buf)@, prev, buf@, pos as int, pos - 2, end as int, Seq::empty(),
                pair_chars(n as nat), text);
        }
        pos = pos - 2;
    } else {
        proof {
            assert(digits(n as nat, 10) =~= Seq::empty() + seq![digit_char(n as nat)]);
        }
        put_digit(buf, pos, n as usize);
        proof {
            lemma_advance(old(buf)@, prev, buf@, pos as int, pos - 1, end as int, Seq::empty(),
                seq![digit_char(n as nat)], text);
        }
        pos = pos - 1;
    }
    proof {
        lemma_filled(old(buf)@, buf@, pos as int, end as int, text);
    }
    pos
}

} // verus!
