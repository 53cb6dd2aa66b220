//! The image as text: the plain portable pixmap, one pixel to a line.

use vstd::prelude::*;

verus! {

/// The byte of the decimal digit `d`.
pub open spec fn digit(d: nat) -> u8 {
    (48 + d) as u8
}

/// `n` in decimal digits, without leading zeros.
pub open spec fn decimal(n: nat) -> Seq<u8>
    decreases n,
{
    if n < 10 {
        seq![digit(n)]
    } else {
        decimal(n / 10).push(digit(n % 10))
    }
}

/// The number that the decimal digits `text` spell. Bytes that are no digits count as they
/// come: the function is meant for what [`decimal`] produces.
pub open spec fn number_of(text: Seq<u8>) -> nat
    decreases text.len(),
{
    if text.len() == 0 {
        0
    } else {
        (number_of(text.drop_last()) * 10 + (text.last() - 48)) as nat
    }
}

/// The line of one pixel: the three channels in decimal, a blank between them, and a line
/// feed.
pub open spec fn pixel_line(red: u8, green: u8, blue: u8) -> Seq<u8> {
    decimal(red as nat) + seq![32u8] + decimal(green as nat) + seq![32u8] + decimal(blue as nat)
        + seq![10u8]
}

/// The three lines before the pixels: the magic word of the plain pixmap, the width and the
/// height, and 255, the largest value of a channel.
pub open spec fn header(width: nat, height: nat) -> Seq<u8> {
    seq![80u8, 51u8, 10u8] + decimal(width) + seq![32u8] + decimal(height) + seq![
        10u8,
        50u8,
        53u8,
        53u8,
        10u8,
    ]
}

/// The lines of `pixels`, in their order.
pub open spec fn pixel_lines(pixels: Seq<[u8; 3]>) -> Seq<u8>
    decreases pixels.len(),
{
    if pixels.len() == 0 {
        Seq::empty()
    } else {
        pixel_lines(pixels.drop_last()) + pixel_line(
            pixels.last()[0],
            pixels.last()[1],
            pixels.last()[2],
        )
    }
}

/// The image of `width` by `height` pixels as text: the header, then the pixels row by row
/// from the top, each row from the left.
pub open spec fn pixmap(width: nat, height: nat, pixels: Seq<[u8; 3]>) -> Seq<u8> {
    header(width, height) + pixel_lines(pixels)
}

/// How many line feeds `text` holds.
pub open spec fn line_feeds(text: Seq<u8>) -> nat
    decreases text.len(),
{
    if text.len() == 0 {
        0
    } else {
        line_feeds(text.drop_last()) + if text.last() == 10u8 {
            1nat
        } else {
            0nat
        }
    }
}

/// The digits of `n`, or none for zero: what stands before the last digit of a number.
pub open spec fn higher_digits(n: nat) -> Seq<u8> {
    if n == 0 {
        Seq::empty()
    } else {
        decimal(n)
    }
}

/// Appends `n` in decimal to `out`.
pub fn write_number(out: &mut Vec<u8>, n: usize)
    ensures
        final(out)@ == old(out)@ + decimal(n as nat),
{
    let mut reversed: Vec<u8> = Vec::new();
    let mut rest: usize = n;
    reversed.push(48u8 + (rest % 10) as u8);
    rest = rest / 10;
    proof {
        assert(reversed@.reverse() =~= seq![digit((n % 10) as nat)]);
        assert(decimal(n as nat) =~= higher_digits(rest as nat) + reversed@.reverse());
    }
    while rest > 0
        invariant
            decimal(n as nat) == higher_digits(rest as nat) + reversed@.reverse(),
        decreases rest,
    {
        let ghost before = reversed@;
        let ghost higher = rest;
        reversed.push(48u8 + (rest % 10) as u8);
        rest = rest / 10;
        proof {
            let d = digit((higher % 10) as nat);
            assert(reversed@.reverse() =~= seq![d] + before.reverse());
            assert(decimal(higher as nat) =~= higher_digits(rest as nat) + seq![d]);
            assert(decimal(n as nat) =~= higher_digits(rest as nat) + reversed@.reverse());
        }
    }
    proof {
        assert(decimal(n as nat) =~= reversed@.reverse());
    }
    let ghost start = out@;
    let mut i: usize = reversed.len();
    while i > 0
        invariant
            i <= reversed@.len(),
            out@ == start + reversed@.reverse().take(reversed@.len() - i),
        decreases i,
    {
        i = i - 1;
        out.push(reversed[i]);
        proof {
            let turned = reversed@.reverse();
            assert(turned.take(reversed@.len() - i) =~= turned.take(reversed@.len() - i - 1).push(
                reversed@[i as int],
            ));
            assert(out@ =~= start + turned.take(reversed@.len() - i));
        }
    }
    proof {
        assert(reversed@.reverse().take(reversed@.len() as int) =~= reversed@.reverse());
    }
}

/// Appends the line of one pixel to `out`, see [`pixel_line`].
pub fn write_color(out: &mut Vec<u8>, red: u8, green: u8, blue: u8)
    ensures
        final(out)@ == old(out)@ + pixel_line(red, green, blue),
{
    write_number(out, red as usize);
    out.push(32u8);
    write_number(out, green as usize);
    out.push(32u8);
    write_number(out, blue as usize);
    out.push(10u8);
    proof {
        assert(out@ =~= old(out)@ + pixel_line(red, green, blue));
    }
}

/// Appends the header of an image of `width` by `height` pixels to `out`, see [`header`].
pub fn write_header(out: &mut Vec<u8>, width: usize, height: usize)
    ensures
        final(out)@ == old(out)@ + header(width as nat, height as nat),
{
    out.push(80u8);
    out.push(51u8);
    out.push(10u8);
    write_number(out, width);
    out.push(32u8);
    write_number(out, height);
    out.push(10u8);
    out.push(50u8);
    out.push(53u8);
    out.push(53u8);
    out.push(10u8);
    proof {
        assert(out@ =~= old(out)@ + header(width as nat, height as nat));
    }
}

/// The image as text, see [`pixmap`]; `None` unless there are exactly `width * height`
/// pixels.
pub fn encode_ppm(width: usize, height: usize, pixels: &Vec<[u8; 3]>) -> (text: Option<Vec<u8>>)
    ensures
        text is Some <==> pixels@.len() == width * height,
        text matches Some(t) ==> t@ == pixmap(width as nat, height as nat, pixels@),
{
    let count: usize = pixels.len();
    match width.checked_mul(height) {
        None => {
            return None;
        },
        Some(total) => {
            if count != total {
                return None;
            }
        },
    }
    let mut out: Vec<u8> = Vec::new();
    write_header(&mut out, width, height);
    let mut k: usize = 0;
    proof {
        assert(pixels@.take(0) =~= Seq::<[u8; 3]>::empty());
        assert(out@ =~= header(width as nat, height as nat) + pixel_lines(pixels@.take(0)));
    }
    while k < pixels.len()
        invariant
            k <= pixels@.len(),
            out@ == header(width as nat, height as nat) + pixel_lines(pixels@.take(k as int)),
        decreases pixels@.len() - k,
    {
        let pixel: [u8; 3] = pixels[k];
        write_color(&mut out, pixel[0], pixel[1], pixel[2]);
        proof {
            assert(pixels@.take(k + 1).drop_last() =~= pixels@.take(k as int));
            assert(pixels@.take(k + 1).last() == pixels@[k as int]);
            assert(out@ =~= header(width as nat, height as nat) + pixel_lines(pixels@.take(k + 1)));
        }
        k = k + 1;
    }
    proof {
        assert(pixels@.take(pixels@.len() as int) =~= pixels@);
    }
    Some(out)
}

/// The decimal digits of a number spell that number, are digits throughout, and begin with
/// a zero only for zero itself.
pub proof fn lemma_decimal_round_trip(n: nat)
    ensures
        number_of(decimal(n)) == n,
        decimal(n).len() >= 1,
        forall|i: int| 0 <= i < decimal(n).len() ==> 48 <= #[trigger] decimal(n)[i] <= 57,
        decimal(n)[0] == 48u8 <==> n == 0,
    decreases n,
{
    if n < 10 {
        assert(decimal(n).drop_last() =~= Seq::<u8>::empty());
        assert(number_of(decimal(n).drop_last()) == 0);
    } else {
        lemma_decimal_round_trip(n / 10);
        assert(decimal(n).drop_last() =~= decimal(n / 10));
        assert(decimal(n).last() == digit(n % 10));
        assert forall|i: int| 0 <= i < decimal(n).len() implies 48 <= #[trigger] decimal(n)[i]
            <= 57 by {
            if i < decimal(n).len() - 1 {
                assert(decimal(n)[i] == decimal(n / 10)[i]);
            }
        }
        assert(decimal(n)[0] == decimal(n / 10)[0]);
    }
}

/// The line feeds of two texts in a row are those of the one and those of the other.
pub proof fn lemma_line_feeds_concat(a: Seq<u8>, b: Seq<u8>)
    ensures
        line_feeds(a + b) == line_feeds(a) + line_feeds(b),
    decreases b.len(),
{
    if b.len() == 0 {
        assert(a + b =~= a);
    } else {
        lemma_line_feeds_concat(a, b.drop_last());
        assert((a + b).drop_last() =~= a + b.drop_last());
        assert((a + b).last() == b.last());
    }
}

/// One more byte is one more line feed where the byte is a line feed, and none else.
pub proof fn lemma_line_feeds_push(text: Seq<u8>, byte: u8)
    ensures
        line_feeds(text.push(byte)) == line_feeds(text) + if byte == 10u8 {
            1nat
        } else {
            0nat
        },
        line_feeds(Seq::<u8>::empty()) == 0,
{
    assert(text.push(byte).drop_last() =~= text);
}

/// A number in decimal holds no line feed.
pub proof fn lemma_decimal_is_one_word(n: nat)
    ensures
        line_feeds(decimal(n)) == 0,
    decreases n,
{
    if n < 10 {
        lemma_line_feeds_push(Seq::empty(), digit(n));
        assert(decimal(n) =~= Seq::<u8>::empty().push(digit(n)));
    } else {
        lemma_decimal_is_one_word(n / 10);
        lemma_line_feeds_push(decimal(n / 10), digit(n % 10));
    }
}

/// The line of a pixel is one line: it holds one line feed, at its end.
pub proof fn lemma_pixel_line_is_one_line(red: u8, green: u8, blue: u8)
    ensures
        line_feeds(pixel_line(red, green, blue)) == 1,
        pixel_line(red, green, blue).last() == 10u8,
{
    let blank = seq![32u8];
    let feed = seq![10u8];
    lemma_decimal_is_one_word(red as nat);
    lemma_decimal_is_one_word(green as nat);
    lemma_decimal_is_one_word(blue as nat);
    assert(line_feeds(blank) == 0) by {
        lemma_line_feeds_push(Seq::empty(), 32u8);
        assert(blank =~= Seq::<u8>::empty().push(32u8));
    }
    assert(line_feeds(feed) == 1) by {
        lemma_line_feeds_push(Seq::empty(), 10u8);
        assert(feed =~= Seq::<u8>::empty().push(10u8));
    }
    lemma_line_feeds_concat(decimal(red as nat), blank);
    lemma_line_feeds_concat(decimal(red as nat) + blank, decimal(green as nat));
    lemma_line_feeds_concat(decimal(red as nat) + blank + decimal(green as nat), blank);
    lemma_line_feeds_concat(
        decimal(red as nat) + blank + decimal(green as nat) + blank,
        decimal(blue as nat),
    );
    lemma_line_feeds_concat(
        decimal(red as nat) + blank + decimal(green as nat) + blank + decimal(blue as nat),
        feed,
    );
}

/// The text of an image has three lines of header and one line for each pixel.
pub proof fn lemma_pixmap_line_count(width: nat, height: nat, pixels: Seq<[u8; 3]>)
    ensures
        line_feeds(header(width, height)) == 3,
        line_feeds(pixel_lines(pixels)) == pixels.len(),
        line_feeds(pixmap(width, height, pixels)) == 3 + pixels.len(),
    decreases pixels.len(),
{
    let magic = seq![80u8, 51u8, 10u8];
    let blank = seq![32u8];
    let tail = seq![10u8, 50u8, 53u8, 53u8, 10u8];
    let none = Seq::<u8>::empty();
    assert(line_feeds(magic) == 1) by {
        lemma_line_feeds_push(none, 80u8);
        lemma_line_feeds_push(none.push(80u8), 51u8);
        lemma_line_feeds_push(none.push(80u8).push(51u8), 10u8);
        assert(magic =~= none.push(80u8).push(51u8).push(10u8));
    }
    assert(line_feeds(blank) == 0) by {
        lemma_line_feeds_push(none, 32u8);
        assert(blank =~= none.push(32u8));
    }
    assert(line_feeds(tail) == 2) by {
        lemma_line_feeds_push(none, 10u8);
        lemma_line_feeds_push(none.push(10u8), 50u8);
        lemma_line_feeds_push(none.push(10u8).push(50u8), 53u8);
        lemma_line_feeds_push(none.push(10u8).push(50u8).push(53u8), 53u8);
        lemma_line_feeds_push(none.push(10u8).push(50u8).push(53u8).push(53u8), 10u8);
        assert(tail =~= none.push(10u8).push(50u8).push(53u8).push(53u8).push(10u8));
    }
    lemma_decimal_is_one_word(width);
    lemma_decimal_is_one_word(height);
    lemma_line_feeds_concat(magic, decimal(width));
    lemma_line_feeds_concat(magic + decimal(width), blank);
    lemma_line_feeds_concat(magic + decimal(width) + blank, decimal(height));
    lemma_line_feeds_concat(magic + decimal(width) + blank + decimal(height), tail);
    if pixels.len() > 0 {
        lemma_pixmap_line_count(width, height, pixels.drop_last());
        lemma_pixel_line_is_one_line(pixels.last()[0], pixels.last()[1], pixels.last()[2]);
        lemma_line_feeds_concat(
            pixel_lines(pixels.drop_last()),
            pixel_line(pixels.last()[0], pixels.last()[1], pixels.last()[2]),
        );
    }
    lemma_line_feeds_concat(header(width, height), pixel_lines(pixels));
}

} // verus!
