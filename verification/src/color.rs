use vstd::prelude::*;

use crate::text::{all_digits, decimal, digits_value, lemma_decimal_reads_back, push_decimal};

verus! {

/// One pixel of a plain-text PPM image: the red, green and blue values in
/// decimal, separated by spaces, on a line of their own.
pub open spec fn ppm_color_text(red: nat, green: nat, blue: nat) -> Seq<char> {
    decimal(red) + seq![' '] + decimal(green) + seq![' '] + decimal(blue) + seq!['\n']
}

/// The line that a pixel with the given channel values adds to a PPM image.
pub fn ppm_color_line(red: u32, green: u32, blue: u32) -> (line: String)
    ensures
        line@ == ppm_color_text(red as nat, green as nat, blue as nat),
{
    let mut line = String::new();
    proof {
        reveal_strlit(" ");
        reveal_strlit("\n");
    }
    push_decimal(&mut line, red as u64);
    line.append(" ");
    push_decimal(&mut line, green as u64);
    line.append(" ");
    push_decimal(&mut line, blue as u64);
    line.append("\n");
    assert(line@ =~= ppm_color_text(red as nat, green as nat, blue as nat));
    line
}


/// A pixel line is three fields of digits separated by single spaces and ended by
/// a newline; the fields read back, in order, as the red, the green and the blue
/// value.
pub proof fn lemma_ppm_color_line_fields(red: nat, green: nat, blue: nat)
    ensures
        ({
            let line = ppm_color_text(red, green, blue);
            exists|i: int, j: int|
                #![trigger line[i], line[j]]
                0 < i && i + 1 < j && j + 1 < line.len() && line[i] == ' ' && line[j] == ' '
                    && line[line.len() - 1] == '\n' && all_digits(line.subrange(0, i))
                    && all_digits(line.subrange(i + 1, j)) && all_digits(
                    line.subrange(j + 1, line.len() - 1),
                ) && digits_value(line.subrange(0, i)) == red && digits_value(
                    line.subrange(i + 1, j),
                ) == green && digits_value(line.subrange(j + 1, line.len() - 1)) == blue
        }),
{
    lemma_decimal_reads_back(red);
    lemma_decimal_reads_back(green);
    lemma_decimal_reads_back(blue);
    let line = ppm_color_text(red, green, blue);
    let r = decimal(red);
    let g = decimal(green);
    let b = decimal(blue);
    let i = r.len() as int;
    let j = i + 1 + g.len();
    assert(line.subrange(0, i) =~= r);
    assert(line.subrange(i + 1, j) =~= g);
    assert(line.subrange(j + 1, line.len() - 1) =~= b);
    assert(line[i] == ' ');
    assert(line[j] == ' ');
    assert(line[line.len() - 1] == '\n');
}

} // verus!
