use vstd::prelude::*;
use crate::assembler::{
    lemma_assemble_concat,
    addr_bytes, addr_operand, arg, assemble_text, byte_operand, encode_line,
    reg_operand, starts, y_byte,
};
use crate::disassembler::{line_of, listing};
use crate::instruction::{decode_spec, word_of, Instruction};
use crate::mnemonic::{hex_digit, hex_str, join, reg_word, render, words};
use crate::text::{digit_value, digits_value, is_space, lemma_line, lemma_token, split_tokens};

verus! {

/// Whether the text form of `op` leaves out its `y` field: the two shifts,
/// whose mnemonic names `Vx` only.
pub open spec fn drops_y_field(op: u16) -> bool {
    op / 4096 == 8 && (op % 16 == 6 || op % 16 == 0xE) && (op / 16) % 16 != 0
}

spec fn is_upper_hex(c: char) -> bool {
    (0x30 <= c as u32 <= 0x39) || (0x41 <= c as u32 <= 0x46)
}

/// A word of a mnemonic line: not empty, without whitespace.
#[verifier::opaque]
spec fn word_ok(w: Seq<char>) -> bool {
    w.len() > 0 && forall|i: int| 0 <= i < w.len() ==> !is_space(#[trigger] w[i])
}

proof fn lemma_mnemonic_letters()
    ensures
        seq!['J', 'P'][0] == 'J',
        seq!['J', 'P'][1] == 'P',
        seq!['S', 'E'][0] == 'S',
        seq!['S', 'E'][1] == 'E',
        seq!['L', 'D'][0] == 'L',
        seq!['L', 'D'][1] == 'D',
        seq!['O', 'R'][0] == 'O',
        seq!['O', 'R'][1] == 'R',
        seq!['N', 'O', 'P'][0] == 'N',
        seq!['N', 'O', 'P'][1] == 'O',
        seq!['N', 'O', 'P'][2] == 'P',
        seq!['C', 'L', 'S'][0] == 'C',
        seq!['C', 'L', 'S'][1] == 'L',
        seq!['C', 'L', 'S'][2] == 'S',
        seq!['R', 'E', 'T'][0] == 'R',
        seq!['R', 'E', 'T'][1] == 'E',
        seq!['R', 'E', 'T'][2] == 'T',
        seq!['S', 'N', 'E'][0] == 'S',
        seq!['S', 'N', 'E'][1] == 'N',
        seq!['S', 'N', 'E'][2] == 'E',
        seq!['A', 'D', 'D'][0] == 'A',
        seq!['A', 'D', 'D'][1] == 'D',
        seq!['A', 'D', 'D'][2] == 'D',
        seq!['A', 'N', 'D'][0] == 'A',
        seq!['A', 'N', 'D'][1] == 'N',
        seq!['A', 'N', 'D'][2] == 'D',
        seq!['X', 'O', 'R'][0] == 'X',
        seq!['X', 'O', 'R'][1] == 'O',
        seq!['X', 'O', 'R'][2] == 'R',
        seq!['S', 'U', 'B'][0] == 'S',
        seq!['S', 'U', 'B'][1] == 'U',
        seq!['S', 'U', 'B'][2] == 'B',
        seq!['S', 'H', 'R'][0] == 'S',
        seq!['S', 'H', 'R'][1] == 'H',
        seq!['S', 'H', 'R'][2] == 'R',
        seq!['S', 'H', 'L'][0] == 'S',
        seq!['S', 'H', 'L'][1] == 'H',
        seq!['S', 'H', 'L'][2] == 'L',
        seq!['R', 'N', 'D'][0] == 'R',
        seq!['R', 'N', 'D'][1] == 'N',
        seq!['R', 'N', 'D'][2] == 'D',
        seq!['D', 'R', 'W'][0] == 'D',
        seq!['D', 'R', 'W'][1] == 'R',
        seq!['D', 'R', 'W'][2] == 'W',
        seq!['S', 'K', 'P'][0] == 'S',
        seq!['S', 'K', 'P'][1] == 'K',
        seq!['S', 'K', 'P'][2] == 'P',
        seq!['C', 'A', 'L', 'L'][0] == 'C',
        seq!['C', 'A', 'L', 'L'][1] == 'A',
        seq!['C', 'A', 'L', 'L'][2] == 'L',
        seq!['S', 'U', 'B', 'N'][0] == 'S',
        seq!['S', 'U', 'B', 'N'][1] == 'U',
        seq!['S', 'U', 'B', 'N'][2] == 'B',
        seq!['S', 'K', 'N', 'P'][0] == 'S',
        seq!['S', 'K', 'N', 'P'][1] == 'K',
        seq!['S', 'K', 'N', 'P'][2] == 'N',
{
}

proof fn lemma_hex_digit(d: nat)
    requires
        d < 16,
    ensures
        digit_value(hex_digit(d)) == Some(d),
        is_upper_hex(hex_digit(d)),
{
    if d == 0 {
        assert(hex_digit(0) == '0');
    } else if d == 1 {
        assert(hex_digit(1) == '1');
    } else if d == 2 {
        assert(hex_digit(2) == '2');
    } else if d == 3 {
        assert(hex_digit(3) == '3');
    } else if d == 4 {
        assert(hex_digit(4) == '4');
    } else if d == 5 {
        assert(hex_digit(5) == '5');
    } else if d == 6 {
        assert(hex_digit(6) == '6');
    } else if d == 7 {
        assert(hex_digit(7) == '7');
    } else if d == 8 {
        assert(hex_digit(8) == '8');
    } else if d == 9 {
        assert(hex_digit(9) == '9');
    } else if d == 10 {
        assert(hex_digit(10) == 'A');
    } else if d == 11 {
        assert(hex_digit(11) == 'B');
    } else if d == 12 {
        assert(hex_digit(12) == 'C');
    } else if d == 13 {
        assert(hex_digit(13) == 'D');
    } else if d == 14 {
        assert(hex_digit(14) == 'E');
    } else if d == 15 {
        assert(hex_digit(15) == 'F');
    }
}

proof fn lemma_hex_str(n: nat)
    ensures
        hex_str(n).len() >= 1,
        forall|i: int| 0 <= i < hex_str(n).len() ==> is_upper_hex(#[trigger] hex_str(n)[i]),
        digits_value(hex_str(n)) == Some(n),
    decreases n,
{
    if n < 16 {
        lemma_hex_digit(n);
        assert(hex_str(n).drop_last() =~= Seq::<char>::empty());
        assert(digits_value(Seq::<char>::empty()) == Some(0nat));
    } else {
        lemma_hex_str(n / 16);
        lemma_hex_digit(n % 16);
        let s = hex_str(n);
        assert(s.drop_last() =~= hex_str(n / 16));
        assert(s.last() == hex_digit(n % 16));
        assert(digits_value(s) == Some((n / 16) * 16 + n % 16));
        assert forall|i: int| 0 <= i < s.len() implies is_upper_hex(#[trigger] s[i]) by {
            if i < s.len() - 1 {
                assert(s[i] == hex_str(n / 16)[i]);
            }
        }
    }
}

proof fn lemma_starts1(w: Seq<char>, a: char)
    ensures
        starts(w, seq![a]) == (w.len() >= 1 && w[0] == a),
{
    if w.len() >= 1 {
        if w[0] == a {
            assert(w.take(1) =~= seq![a]);
        } else {
            assert(w.take(1)[0] != seq![a][0]);
        }
    }
}

proof fn lemma_starts2(w: Seq<char>, a: char, b: char)
    ensures
        starts(w, seq![a, b]) == (w.len() >= 2 && w[0] == a && w[1] == b),
{
    if w.len() >= 2 {
        if w[0] == a && w[1] == b {
            assert(w.take(2) =~= seq![a, b]);
        } else if w[0] != a {
            assert(w.take(2)[0] != seq![a, b][0]);
        } else {
            assert(w.take(2)[1] != seq![a, b][1]);
        }
    }
}

proof fn lemma_starts3(w: Seq<char>, a: char, b: char, c: char)
    ensures
        starts(w, seq![a, b, c]) == (w.len() >= 3 && w[0] == a && w[1] == b && w[2] == c),
{
    if w.len() >= 3 {
        if w[0] == a && w[1] == b && w[2] == c {
            assert(w.take(3) =~= seq![a, b, c]);
        } else if w[0] != a {
            assert(w.take(3)[0] != seq![a, b, c][0]);
        } else if w[1] != b {
            assert(w.take(3)[1] != seq![a, b, c][1]);
        } else {
            assert(w.take(3)[2] != seq![a, b, c][2]);
        }
    }
}

/// What the operand readers make of a word, and which prefixes it has.
proof fn lemma_word_prefixes(w: Seq<char>)
    ensures
        starts(w, seq!['V']) == (w.len() >= 1 && w[0] == 'V'),
        starts(w, seq!['I']) == (w.len() >= 1 && w[0] == 'I'),
        starts(w, seq!['K']) == (w.len() >= 1 && w[0] == 'K'),
        starts(w, seq!['F']) == (w.len() >= 1 && w[0] == 'F'),
        starts(w, seq!['B']) == (w.len() >= 1 && w[0] == 'B'),
        starts(w, seq!['D', 'T']) == (w.len() >= 2 && w[0] == 'D' && w[1] == 'T'),
        starts(w, seq!['S', 'T']) == (w.len() >= 2 && w[0] == 'S' && w[1] == 'T'),
        starts(w, seq!['[', 'I', ']']) == (w.len() >= 3 && w[0] == '[' && w[1] == 'I' && w[2]
            == ']'),
{
    lemma_starts1(w, 'V');
    lemma_starts1(w, 'I');
    lemma_starts1(w, 'K');
    lemma_starts1(w, 'F');
    lemma_starts1(w, 'B');
    lemma_starts2(w, 'D', 'T');
    lemma_starts2(w, 'S', 'T');
    lemma_starts3(w, '[', 'I', ']');
}

/// A number written by the disassembler is a word.
proof fn lemma_number_ok(n: nat)
    ensures
        word_ok(hex_str(n)),
{
    lemma_number_word(n);
}

/// A number written by the disassembler reads back as itself.
proof fn lemma_number_word(n: nat)
    ensures
        word_ok(hex_str(n)),
        hex_str(n)[0] != 'V' && hex_str(n)[0] != '[' && hex_str(n)[0] != 'K',
        hex_str(n).len() >= 2 ==> hex_str(n)[1] != 'T',
        n < 256 ==> byte_operand(hex_str(n)) == n,
        n < 65536 ==> addr_operand(hex_str(n)) == n,
{
    reveal(word_ok);
    lemma_hex_str(n);
    let s = hex_str(n);
    assert(is_upper_hex(s[0]));
    if s.len() >= 2 {
        assert(is_upper_hex(s[1]));
    }
    assert forall|i: int| 0 <= i < s.len() implies !is_space(#[trigger] s[i]) by {
        assert(is_upper_hex(s[i]));
    }
}

/// A register written by the disassembler is a word.
proof fn lemma_reg_ok(x: u8)
    ensures
        word_ok(reg_word(x)),
{
    lemma_reg_word(x);
}

/// A register written by the disassembler reads back as itself.
proof fn lemma_reg_word(x: u8)
    ensures
        word_ok(reg_word(x)),
        reg_word(x)[0] == 'V',
        reg_operand(reg_word(x)) == x,
{
    reveal(word_ok);
    lemma_number_word(x as nat);
    let w = reg_word(x);
    assert(w.drop_first() =~= hex_str(x as nat));
    assert forall|i: int| 0 <= i < w.len() implies !is_space(#[trigger] w[i]) by {
        if i > 0 {
            assert(w[i] == hex_str(x as nat)[i - 1]);
        }
    }
}

proof fn lemma_or_low(c: u8, h: u8, v: u8)
    requires
        h < 16,
        v < 16,
        c == h * 16,
    ensures
        (c | v) == c + v,
{
    assert(h < 16 && v < 16 && c == h * 16 ==> (c | v) == c + v) by (bit_vector);
}

proof fn lemma_y_byte(y: u8, v: u8)
    requires
        y < 16,
        v < 16,
    ensures
        y_byte(y, v) == y * 16 + v,
{
    assert(y < 16 && v < 16 ==> ((y << 4u8) | v) == y * 16 + v) by (bit_vector);
}

proof fn lemma_addr_bytes(c: u8, h: u8, a: u16)
    requires
        h < 16,
        c == h * 16,
        a < 4096,
    ensures
        addr_bytes(c, a) == seq![(c + a / 256) as u8, (a % 256) as u8],
{
    assert(a < 4096 ==> ((a & 0xF00u16) >> 8u16) == a / 256 && (a & 0xFFu16) == a % 256)
        by (bit_vector);
    lemma_or_low(c, h, (a / 256) as u8);
}

proof fn lemma_short_word(w: Seq<char>)
    requires
        1 <= w.len() <= 4,
        !is_space(w[0]),
        w.len() > 1 ==> !is_space(w[1]),
        w.len() > 2 ==> !is_space(w[2]),
        w.len() > 3 ==> !is_space(w[3]),
    ensures
        word_ok(w),
{
    reveal(word_ok);
    assert forall|i: int| 0 <= i < w.len() implies !is_space(#[trigger] w[i]) by {
        if i == 0 {
        } else if i == 1 {
        } else if i == 2 {
        } else {
        }
    }
}

/// Up to four words, each of them a word, are all words.
proof fn lemma_all_ok(ws: Seq<Seq<char>>)
    requires
        ws.len() <= 4,
        ws.len() > 0 ==> word_ok(ws[0]),
        ws.len() > 1 ==> word_ok(ws[1]),
        ws.len() > 2 ==> word_ok(ws[2]),
        ws.len() > 3 ==> word_ok(ws[3]),
    ensures
        forall|i: int| 0 <= i < ws.len() ==> word_ok(#[trigger] ws[i]),
{
    assert forall|i: int| 0 <= i < ws.len() implies word_ok(#[trigger] ws[i]) by {
        if i == 0 {
        } else if i == 1 {
        } else if i == 2 {
        } else {
        }
    }
}

/// Every word of a mnemonic line is a word: not empty, without whitespace.
#[verifier::rlimit(40)]
proof fn lemma_words_ok(ins: Instruction)
    ensures
        forall|i: int| 0 <= i < words(ins).len() ==> word_ok(#[trigger] words(ins)[i]),
{
    match ins {
        Instruction::Nop => {
            lemma_short_word(seq!['N', 'O', 'P']);
        },
        Instruction::Cls => {
            lemma_short_word(seq!['C', 'L', 'S']);
        },
        Instruction::Ret => {
            lemma_short_word(seq!['R', 'E', 'T']);
        },
        Instruction::Jp { nnn } => {
            lemma_short_word(seq!['J', 'P']);
            lemma_number_ok(nnn as nat);
        },
        Instruction::Call { nnn } => {
            lemma_short_word(seq!['C', 'A', 'L', 'L']);
            lemma_number_ok(nnn as nat);
        },
        Instruction::SeByte { x, kk } => {
            lemma_short_word(seq!['S', 'E']);
            lemma_reg_ok(x);
            lemma_number_ok(kk as nat);
        },
        Instruction::SneByte { x, kk } => {
            lemma_short_word(seq!['S', 'N', 'E']);
            lemma_reg_ok(x);
            lemma_number_ok(kk as nat);
        },
        Instruction::SeReg { x, y } => {
            lemma_short_word(seq!['S', 'E']);
            lemma_reg_ok(x);
            lemma_reg_ok(y);
        },
        Instruction::LdByte { x, kk } => {
            lemma_short_word(seq!['L', 'D']);
            lemma_reg_ok(x);
            lemma_number_ok(kk as nat);
        },
        Instruction::AddByte { x, kk } => {
            lemma_short_word(seq!['A', 'D', 'D']);
            lemma_reg_ok(x);
            lemma_number_ok(kk as nat);
        },
        Instruction::LdReg { x, y } => {
            lemma_short_word(seq!['L', 'D']);
            lemma_reg_ok(x);
            lemma_reg_ok(y);
        },
        Instruction::Or { x, y } => {
            lemma_short_word(seq!['O', 'R']);
            lemma_reg_ok(x);
            lemma_reg_ok(y);
        },
        Instruction::And { x, y } => {
            lemma_short_word(seq!['A', 'N', 'D']);
            lemma_reg_ok(x);
            lemma_reg_ok(y);
        },
        Instruction::Xor { x, y } => {
            lemma_short_word(seq!['X', 'O', 'R']);
            lemma_reg_ok(x);
            lemma_reg_ok(y);
        },
        Instruction::AddReg { x, y } => {
            lemma_short_word(seq!['A', 'D', 'D']);
            lemma_reg_ok(x);
            lemma_reg_ok(y);
        },
        Instruction::Sub { x, y } => {
            lemma_short_word(seq!['S', 'U', 'B']);
            lemma_reg_ok(x);
            lemma_reg_ok(y);
        },
        Instruction::Shr { x } => {
            lemma_short_word(seq!['S', 'H', 'R']);
            lemma_reg_ok(x);
        },
        Instruction::Subn { x, y } => {
            lemma_short_word(seq!['S', 'U', 'B', 'N']);
            lemma_reg_ok(x);
            lemma_reg_ok(y);
        },
        Instruction::Shl { x } => {
            lemma_short_word(seq!['S', 'H', 'L']);
            lemma_reg_ok(x);
        },
        Instruction::SneReg { x, y } => {
            lemma_short_word(seq!['S', 'N', 'E']);
            lemma_reg_ok(x);
            lemma_reg_ok(y);
        },
        Instruction::LdI { nnn } => {
            lemma_short_word(seq!['L', 'D']);
            lemma_short_word(seq!['I']);
            lemma_number_ok(nnn as nat);
        },
        Instruction::JpV0 { nnn } => {
            lemma_short_word(seq!['J', 'P']);
            lemma_reg_ok(0);
            lemma_number_ok(nnn as nat);
        },
        Instruction::Rnd { x, kk } => {
            lemma_short_word(seq!['R', 'N', 'D']);
            lemma_reg_ok(x);
            lemma_number_ok(kk as nat);
        },
        Instruction::Drw { x, y, n } => {
            lemma_short_word(seq!['D', 'R', 'W']);
            lemma_reg_ok(x);
            lemma_reg_ok(y);
            lemma_number_ok(n as nat);
        },
        Instruction::Skp { x } => {
            lemma_short_word(seq!['S', 'K', 'P']);
            lemma_reg_ok(x);
        },
        Instruction::Sknp { x } => {
            lemma_short_word(seq!['S', 'K', 'N', 'P']);
            lemma_reg_ok(x);
        },
        Instruction::LdFromDelay { x } => {
            lemma_short_word(seq!['L', 'D']);
            lemma_reg_ok(x);
            lemma_short_word(seq!['D', 'T']);
        },
        Instruction::WaitKey { x } => {
            lemma_short_word(seq!['L', 'D']);
            lemma_reg_ok(x);
            lemma_short_word(seq!['K']);
        },
        Instruction::LdDelay { x } => {
            lemma_short_word(seq!['L', 'D']);
            lemma_short_word(seq!['D', 'T']);
            lemma_reg_ok(x);
        },
        Instruction::LdSound { x } => {
            lemma_short_word(seq!['L', 'D']);
            lemma_short_word(seq!['S', 'T']);
            lemma_reg_ok(x);
        },
        Instruction::AddI { x } => {
            lemma_short_word(seq!['A', 'D', 'D']);
            lemma_short_word(seq!['I']);
            lemma_reg_ok(x);
        },
        Instruction::LdFont { x } => {
            lemma_short_word(seq!['L', 'D']);
            lemma_short_word(seq!['F']);
            lemma_reg_ok(x);
        },
        Instruction::LdBcd { x } => {
            lemma_short_word(seq!['L', 'D']);
            lemma_short_word(seq!['B']);
            lemma_reg_ok(x);
        },
        Instruction::StoreRegs { x } => {
            lemma_short_word(seq!['L', 'D']);
            lemma_short_word(seq!['[', 'I', ']']);
            lemma_reg_ok(x);
        },
        Instruction::LoadRegs { x } => {
            lemma_short_word(seq!['L', 'D']);
            lemma_reg_ok(x);
            lemma_short_word(seq!['[', 'I', ']']);
        },
        Instruction::Unknown => {
            lemma_short_word(seq!['?', '?', '?']);
        },
    }
    lemma_all_ok(words(ins));
}

/// Words joined by spaces split back into the same words, and the line has
/// no line break.
#[verifier::rlimit(40)]
proof fn lemma_split_join(ws: Seq<Seq<char>>)
    requires
        forall|i: int| 0 <= i < ws.len() ==> word_ok(#[trigger] ws[i]),
    ensures
        split_tokens(join(ws)) == ws,
        forall|i: int| 0 <= i < join(ws).len() ==> #[trigger] join(ws)[i] != '\n',
    decreases ws.len(),
{
    reveal(word_ok);
    if ws.len() == 0 {
        assert(split_tokens(join(ws)) =~= ws);
    } else {
        let w = ws[0];
        assert(word_ok(w));
        let s = join(ws);
        let k = w.len() as int;
        if ws.len() == 1 {
            assert(s == w);
            lemma_token(s, 0, k);
            assert(s.skip(0) =~= s);
            assert(s.subrange(0, k) =~= w);
            assert(s.skip(k) =~= Seq::<char>::empty());
            assert(split_tokens(s) =~= ws);
            assert forall|i: int| 0 <= i < s.len() implies #[trigger] s[i] != '\n' by {
                assert(!is_space(w[i]));
            }
        } else {
            let rest = ws.drop_first();
            assert forall|i: int| 0 <= i < rest.len() implies word_ok(#[trigger] rest[i]) by {
                assert(rest[i] == ws[i + 1]);
            }
            lemma_split_join(rest);
            assert(s == w + seq![' '] + join(rest));
            assert forall|i: int| 0 <= i < k implies !is_space(#[trigger] s[i]) by {
                assert(s[i] == w[i]);
            }
            assert(s[k] == ' ');
            lemma_token(s, 0, k);
            assert(s.skip(0) =~= s);
            assert(s.subrange(0, k) =~= w);
            let tail = s.skip(k);
            assert(tail.drop_first() =~= join(rest));
            assert(tail[0] == ' ');
            assert(split_tokens(tail) == split_tokens(join(rest)));
            assert(split_tokens(s) =~= ws);
            assert forall|i: int| 0 <= i < s.len() implies #[trigger] s[i] != '\n' by {
                if i < k {
                    assert(!is_space(w[i]));
                } else if i > k {
                    assert(s[i] == join(rest)[i - k - 1]);
                }
            }
        }
    }
}

/// Words `0nnn` to `7xkk` read back from their mnemonic lines.
#[verifier::spinoff_prover]
#[verifier::rlimit(100)]
proof fn lemma_encode_low(hi: u8, lo: u8)
    requires
        hi / 16 < 8,
        decode_spec(word_of(hi, lo)) != Instruction::Unknown,
        !drops_y_field(word_of(hi, lo)),
    ensures
        encode_line(words(decode_spec(word_of(hi, lo)))) == seq![hi, lo],
{
    let op = word_of(hi, lo);
    assert(op == hi * 256 + lo);
    assert(op / 4096 == hi / 16);
    assert((op / 256) % 16 == hi % 16);
    assert((op / 16) % 16 == lo / 16);
    assert(op % 16 == lo % 16);
    assert(op % 256 == lo);
    assert(op % 4096 == (hi % 16) * 256 + lo);
    lemma_mnemonic_letters();
    let ins = decode_spec(op);
    match ins {
        Instruction::Nop => {

            assert(encode_line(words(ins)) =~= seq![hi, lo]);
        },
        Instruction::Cls => {

            assert(encode_line(words(ins)) =~= seq![hi, lo]);
        },
        Instruction::Ret => {

            assert(encode_line(words(ins)) =~= seq![hi, lo]);
        },
        Instruction::Jp { nnn } => {
            lemma_number_word(nnn as nat);
            lemma_word_prefixes(hex_str(nnn as nat));
            lemma_addr_bytes(0x10, 1, nnn);
            assert(encode_line(words(ins)) =~= seq![hi, lo]);
        },
        Instruction::Call { nnn } => {
            lemma_number_word(nnn as nat);
            lemma_word_prefixes(hex_str(nnn as nat));
            lemma_addr_bytes(0x20, 2, nnn);
            assert(encode_line(words(ins)) =~= seq![hi, lo]);
        },
        Instruction::SeByte { x, kk } => {
            lemma_reg_word(x);
            lemma_word_prefixes(reg_word(x));
            lemma_number_word(kk as nat);
            lemma_word_prefixes(hex_str(kk as nat));
            lemma_or_low(0x30, 3, x);
            assert(encode_line(words(ins)) =~= seq![hi, lo]);
        },
        Instruction::SneByte { x, kk } => {
            lemma_reg_word(x);
            lemma_word_prefixes(reg_word(x));
            lemma_number_word(kk as nat);
            lemma_word_prefixes(hex_str(kk as nat));
            lemma_or_low(0x40, 4, x);
            assert(encode_line(words(ins)) =~= seq![hi, lo]);
        },
        Instruction::SeReg { x, y } => {
            lemma_reg_word(x);
            lemma_word_prefixes(reg_word(x));
            lemma_reg_word(y);
            lemma_word_prefixes(reg_word(y));
            lemma_or_low(0x50, 5, x);
            lemma_y_byte(y, 0);
            assert(encode_line(words(ins)) =~= seq![hi, lo]);
        },
        Instruction::LdByte { x, kk } => {
            lemma_reg_word(x);
            lemma_word_prefixes(reg_word(x));
            lemma_number_word(kk as nat);
            lemma_word_prefixes(hex_str(kk as nat));
            lemma_or_low(0x60, 6, x);
            assert(encode_line(words(ins)) =~= seq![hi, lo]);
        },
        Instruction::AddByte { x, kk } => {
            lemma_reg_word(x);
            lemma_word_prefixes(reg_word(x));
            lemma_number_word(kk as nat);
            lemma_word_prefixes(hex_str(kk as nat));
            lemma_or_low(0x70, 7, x);
            assert(encode_line(words(ins)) =~= seq![hi, lo]);
        },
        _ => {},
    }
}

/// Words `8xy0` to `8xy5` read back from their mnemonic lines.
#[verifier::spinoff_prover]
#[verifier::rlimit(100)]
proof fn lemma_encode_alu(hi: u8, lo: u8)
    requires
        hi / 16 == 8,
        lo % 16 <= 5,
        decode_spec(word_of(hi, lo)) != Instruction::Unknown,
        !drops_y_field(word_of(hi, lo)),
    ensures
        encode_line(words(decode_spec(word_of(hi, lo)))) == seq![hi, lo],
{
    let op = word_of(hi, lo);
    assert(op == hi * 256 + lo);
    assert(op / 4096 == hi / 16);
    assert((op / 256) % 16 == hi % 16);
    assert((op / 16) % 16 == lo / 16);
    assert(op % 16 == lo % 16);
    assert(op % 256 == lo);
    assert(op % 4096 == (hi % 16) * 256 + lo);
    lemma_mnemonic_letters();
    let ins = decode_spec(op);
    match ins {
        Instruction::LdReg { x, y } => {
            lemma_reg_word(x);
            lemma_word_prefixes(reg_word(x));
            lemma_reg_word(y);
            lemma_word_prefixes(reg_word(y));
            lemma_or_low(0x80, 8, x);
            lemma_y_byte(y, 0);
            assert(encode_line(words(ins)) =~= seq![hi, lo]);
        },
        Instruction::Or { x, y } => {
            lemma_reg_word(x);
            lemma_word_prefixes(reg_word(x));
            lemma_reg_word(y);
            lemma_word_prefixes(reg_word(y));
            lemma_or_low(0x80, 8, x);
            lemma_y_byte(y, 1);
            assert(encode_line(words(ins)) =~= seq![hi, lo]);
        },
        Instruction::And { x, y } => {
            lemma_reg_word(x);
            lemma_word_prefixes(reg_word(x));
            lemma_reg_word(y);
            lemma_word_prefixes(reg_word(y));
            lemma_or_low(0x80, 8, x);
            lemma_y_byte(y, 2);
            assert(encode_line(words(ins)) =~= seq![hi, lo]);
        },
        Instruction::Xor { x, y } => {
            lemma_reg_word(x);
            lemma_word_prefixes(reg_word(x));
            lemma_reg_word(y);
            lemma_word_prefixes(reg_word(y));
            lemma_or_low(0x80, 8, x);
            lemma_y_byte(y, 3);
            assert(encode_line(words(ins)) =~= seq![hi, lo]);
        },
        Instruction::AddReg { x, y } => {
            lemma_reg_word(x);
            lemma_word_prefixes(reg_word(x));
            lemma_reg_word(y);
            lemma_word_prefixes(reg_word(y));
            lemma_or_low(0x80, 8, x);
            lemma_y_byte(y, 4);
            assert(encode_line(words(ins)) =~= seq![hi, lo]);
        },
        Instruction::Sub { x, y } => {
            lemma_reg_word(x);
            lemma_word_prefixes(reg_word(x));
            lemma_reg_word(y);
            lemma_word_prefixes(reg_word(y));
            lemma_or_low(0x80, 8, x);
            lemma_y_byte(y, 5);
            assert(encode_line(words(ins)) =~= seq![hi, lo]);
        },
        _ => {},
    }
}

/// Words `8xy6` to `8xyE` read back from their mnemonic lines.
#[verifier::spinoff_prover]
#[verifier::rlimit(100)]
proof fn lemma_encode_shift(hi: u8, lo: u8)
    requires
        hi / 16 == 8,
        lo % 16 > 5,
        decode_spec(word_of(hi, lo)) != Instruction::Unknown,
        !drops_y_field(word_of(hi, lo)),
    ensures
        encode_line(words(decode_spec(word_of(hi, lo)))) == seq![hi, lo],
{
    let op = word_of(hi, lo);
    assert(op == hi * 256 + lo);
    assert(op / 4096 == hi / 16);
    assert((op / 256) % 16 == hi % 16);
    assert((op / 16) % 16 == lo / 16);
    assert(op % 16 == lo % 16);
    assert(op % 256 == lo);
    assert(op % 4096 == (hi % 16) * 256 + lo);
    lemma_mnemonic_letters();
    let ins = decode_spec(op);
    match ins {
        Instruction::Shr { x } => {
            lemma_reg_word(x);
            lemma_word_prefixes(reg_word(x));
            lemma_or_low(0x80, 8, x);
            assert(encode_line(words(ins)) =~= seq![hi, lo]);
        },
        Instruction::Subn { x, y } => {
            lemma_reg_word(x);
            lemma_word_prefixes(reg_word(x));
            lemma_reg_word(y);
            lemma_word_prefixes(reg_word(y));
            lemma_or_low(0x80, 8, x);
            lemma_y_byte(y, 7);
            let t = words(ins);
            assert(arg(t, 0) == seq!['S', 'U', 'B', 'N']);
            assert(arg(t, 0) != seq!['S', 'U', 'B']);
            assert(arg(t, 0) != seq!['C', 'A', 'L', 'L']);
            assert(encode_line(t) == seq![0x80u8 | x, y_byte(reg_operand(arg(t, 2)), 0x07)]);
            assert(reg_operand(arg(t, 2)) == y);
            assert(encode_line(words(ins)) =~= seq![hi, lo]);
        },
        Instruction::Shl { x } => {
            lemma_reg_word(x);
            lemma_word_prefixes(reg_word(x));
            lemma_or_low(0x80, 8, x);
            assert(encode_line(words(ins)) =~= seq![hi, lo]);
        },
        _ => {},
    }
}

/// Words `9xy0` to `ExA1` read back from their mnemonic lines.
#[verifier::spinoff_prover]
#[verifier::rlimit(100)]
proof fn lemma_encode_high(hi: u8, lo: u8)
    requires
        8 < hi / 16 < 15,
        decode_spec(word_of(hi, lo)) != Instruction::Unknown,
        !drops_y_field(word_of(hi, lo)),
    ensures
        encode_line(words(decode_spec(word_of(hi, lo)))) == seq![hi, lo],
{
    let op = word_of(hi, lo);
    assert(op == hi * 256 + lo);
    assert(op / 4096 == hi / 16);
    assert((op / 256) % 16 == hi % 16);
    assert((op / 16) % 16 == lo / 16);
    assert(op % 16 == lo % 16);
    assert(op % 256 == lo);
    assert(op % 4096 == (hi % 16) * 256 + lo);
    lemma_mnemonic_letters();
    let ins = decode_spec(op);
    match ins {
        Instruction::SneReg { x, y } => {
            lemma_reg_word(x);
            lemma_word_prefixes(reg_word(x));
            lemma_reg_word(y);
            lemma_word_prefixes(reg_word(y));
            lemma_or_low(0x90, 9, x);
            lemma_y_byte(y, 0);
            assert(encode_line(words(ins)) =~= seq![hi, lo]);
        },
        Instruction::LdI { nnn } => {
            lemma_word_prefixes(seq!['I']);
            lemma_number_word(nnn as nat);
            lemma_word_prefixes(hex_str(nnn as nat));
            lemma_addr_bytes(0xA0, 10, nnn);
            assert(encode_line(words(ins)) =~= seq![hi, lo]);
        },
        Instruction::JpV0 { nnn } => {
            lemma_reg_word(0u8);
            lemma_word_prefixes(reg_word(0u8));
            lemma_number_word(nnn as nat);
            lemma_word_prefixes(hex_str(nnn as nat));
            lemma_addr_bytes(0xB0, 11, nnn);
            assert(encode_line(words(ins)) =~= seq![hi, lo]);
        },
        Instruction::Rnd { x, kk } => {
            lemma_reg_word(x);
            lemma_word_prefixes(reg_word(x));
            lemma_number_word(kk as nat);
            lemma_word_prefixes(hex_str(kk as nat));
            lemma_or_low(0xC0, 12, x);
            assert(encode_line(words(ins)) =~= seq![hi, lo]);
        },
        Instruction::Drw { x, y, n } => {
            lemma_reg_word(x);
            lemma_word_prefixes(reg_word(x));
            lemma_reg_word(y);
            lemma_word_prefixes(reg_word(y));
            lemma_number_word(n as nat);
            lemma_word_prefixes(hex_str(n as nat));
            lemma_or_low(0xD0, 13, x);
            lemma_y_byte(y, n);
            assert(encode_line(words(ins)) =~= seq![hi, lo]);
        },
        Instruction::Skp { x } => {
            lemma_reg_word(x);
            lemma_word_prefixes(reg_word(x));
            lemma_or_low(0xE0, 14, x);
            assert(encode_line(words(ins)) =~= seq![hi, lo]);
        },
        Instruction::Sknp { x } => {
            lemma_reg_word(x);
            lemma_word_prefixes(reg_word(x));
            lemma_or_low(0xE0, 14, x);
            assert(encode_line(words(ins)) =~= seq![hi, lo]);
        },
        _ => {},
    }
}

/// Words `Fx07` to `Fx65` read back from their mnemonic lines.
#[verifier::spinoff_prover]
#[verifier::rlimit(100)]
proof fn lemma_encode_misc(hi: u8, lo: u8)
    requires
        hi / 16 == 15,
        decode_spec(word_of(hi, lo)) != Instruction::Unknown,
        !drops_y_field(word_of(hi, lo)),
    ensures
        encode_line(words(decode_spec(word_of(hi, lo)))) == seq![hi, lo],
{
    let op = word_of(hi, lo);
    assert(op == hi * 256 + lo);
    assert(op / 4096 == hi / 16);
    assert((op / 256) % 16 == hi % 16);
    assert((op / 16) % 16 == lo / 16);
    assert(op % 16 == lo % 16);
    assert(op % 256 == lo);
    assert(op % 4096 == (hi % 16) * 256 + lo);
    lemma_mnemonic_letters();
    let ins = decode_spec(op);
    match ins {
        Instruction::LdFromDelay { x } => {
            lemma_reg_word(x);
            lemma_word_prefixes(reg_word(x));
            lemma_word_prefixes(seq!['D', 'T']);
            lemma_or_low(0xF0, 15, x);
            assert(encode_line(words(ins)) =~= seq![hi, lo]);
        },
        Instruction::WaitKey { x } => {
            lemma_reg_word(x);
            lemma_word_prefixes(reg_word(x));
            lemma_word_prefixes(seq!['K']);
            lemma_or_low(0xF0, 15, x);
            assert(encode_line(words(ins)) =~= seq![hi, lo]);
        },
        Instruction::LdDelay { x } => {
            lemma_word_prefixes(seq!['D', 'T']);
            lemma_reg_word(x);
            lemma_word_prefixes(reg_word(x));
            lemma_or_low(0xF0, 15, x);
            assert(encode_line(words(ins)) =~= seq![hi, lo]);
        },
        Instruction::LdSound { x } => {
            lemma_word_prefixes(seq!['S', 'T']);
            lemma_reg_word(x);
            lemma_word_prefixes(reg_word(x));
            lemma_or_low(0xF0, 15, x);
            assert(encode_line(words(ins)) =~= seq![hi, lo]);
        },
        Instruction::AddI { x } => {
            lemma_word_prefixes(seq!['I']);
            lemma_reg_word(x);
            lemma_word_prefixes(reg_word(x));
            lemma_or_low(0xF0, 15, x);
            assert(encode_line(words(ins)) =~= seq![hi, lo]);
        },
        Instruction::LdFont { x } => {
            lemma_word_prefixes(seq!['F']);
            lemma_reg_word(x);
            lemma_word_prefixes(reg_word(x));
            lemma_or_low(0xF0, 15, x);
            assert(encode_line(words(ins)) =~= seq![hi, lo]);
        },
        Instruction::LdBcd { x } => {
            lemma_word_prefixes(seq!['B']);
            lemma_reg_word(x);
            lemma_word_prefixes(reg_word(x));
            lemma_or_low(0xF0, 15, x);
            assert(encode_line(words(ins)) =~= seq![hi, lo]);
        },
        Instruction::StoreRegs { x } => {
            lemma_word_prefixes(seq!['[', 'I', ']']);
            lemma_reg_word(x);
            lemma_word_prefixes(reg_word(x));
            lemma_or_low(0xF0, 15, x);
            assert(encode_line(words(ins)) =~= seq![hi, lo]);
        },
        Instruction::LoadRegs { x } => {
            lemma_reg_word(x);
            lemma_word_prefixes(reg_word(x));
            lemma_word_prefixes(seq!['[', 'I', ']']);
            lemma_or_low(0xF0, 15, x);
            assert(encode_line(words(ins)) =~= seq![hi, lo]);
        },
        _ => {},
    }
}

/// The bytes that a mnemonic line is read back into are the bytes it was
/// written from.
proof fn lemma_encode_words(hi: u8, lo: u8)
    requires
        decode_spec(word_of(hi, lo)) != Instruction::Unknown,
        !drops_y_field(word_of(hi, lo)),
    ensures
        encode_line(words(decode_spec(word_of(hi, lo)))) == seq![hi, lo],
{
    if hi / 16 < 8 {
        lemma_encode_low(hi, lo);
    } else if hi / 16 == 8 && lo % 16 <= 5 {
        lemma_encode_alu(hi, lo);
    } else if hi / 16 == 8 {
        lemma_encode_shift(hi, lo);
    } else if hi / 16 < 15 {
        lemma_encode_high(hi, lo);
    } else {
        lemma_encode_misc(hi, lo);
    }
}

/// Disassembling a two-byte program and assembling its listing gives the
/// same two bytes back, for every word with a defined meaning except the
/// shifts with a nonzero `y` field, whose text form does not carry it.
#[verifier::rlimit(40)]
pub proof fn lemma_round_trip(hi: u8, lo: u8)
    requires
        decode_spec(word_of(hi, lo)) != Instruction::Unknown,
        !drops_y_field(word_of(hi, lo)),
    ensures
        assemble_text(listing(seq![hi, lo])) == seq![hi, lo],
{
    let p = seq![hi, lo];
    let ins = decode_spec(word_of(hi, lo));
    reveal(line_of);
    assert(p.skip(2) =~= Seq::<u8>::empty());
    let r = render(ins);
    let s = r + seq!['\n'];
    assert(listing(p.skip(2)) =~= Seq::<char>::empty());
    assert(listing(p) == line_of(hi, lo) + listing(p.skip(2)));
    assert(listing(p) =~= s);
    lemma_words_ok(ins);
    lemma_split_join(words(ins));
    assert forall|k: int| 0 <= k < r.len() implies #[trigger] s[k] != '\n' by {
        assert(s[k] == r[k]);
    }
    lemma_line(s, 0, r.len() as int);
    assert(s.skip(0) =~= s);
    assert(s.take(r.len() as int) =~= r);
    let empty = Seq::<char>::empty();
    assert(s.skip(r.len() + 1 as int) =~= empty);
    assert(split_tokens(empty) =~= Seq::<Seq<char>>::empty());
    assert(assemble_text(empty) =~= Seq::<u8>::empty());
    lemma_encode_words(hi, lo);
    assert(assemble_text(s) =~= seq![hi, lo]);
}

proof fn lemma_word_round_trip(hi: u8, lo: u8)
    requires
        round_trips(hi, lo),
    ensures
        assemble_text(listing(seq![hi, lo])) == seq![hi, lo],
{
    reveal(round_trips);
    lemma_round_trip(hi, lo);
}

proof fn lemma_line_ends(hi: u8, lo: u8)
    ensures
        line_of(hi, lo) == line_of(hi, lo).drop_last() + seq!['\n'],
{
    reveal(line_of);
    assert(line_of(hi, lo) =~= line_of(hi, lo).drop_last() + seq!['\n']);
}

/// Whether the word made of `hi` and `lo` has a defined meaning and a text
/// form that carries all of its fields.
#[verifier::opaque]
pub open spec fn round_trips(hi: u8, lo: u8) -> bool {
    decode_spec(word_of(hi, lo)) != Instruction::Unknown && !drops_y_field(word_of(hi, lo))
}

/// Disassembling a program of whole words, each of which has a defined
/// meaning and keeps its fields in text, and assembling the listing gives
/// the program back.
#[verifier::spinoff_prover]
#[verifier::rlimit(40)]
pub proof fn lemma_program_round_trip(p: Seq<u8>)
    requires
        p.len() % 2 == 0,
        forall|i: int| 0 <= i < p.len() / 2 ==> round_trips(p[2 * i], #[trigger] p[2 * i + 1]),
    ensures
        assemble_text(listing(p)) == p,
    decreases p.len(),
{
    if p.len() == 0 {
        assert(assemble_text(Seq::<char>::empty()) =~= Seq::<u8>::empty()) by {
            assert(split_tokens(Seq::<char>::empty()) =~= Seq::<Seq<char>>::empty());
        }
    } else {
        let rest = p.skip(2);
        assert forall|i: int| 0 <= i < rest.len() / 2 implies round_trips(
            rest[2 * i],
            #[trigger] rest[2 * i + 1],
        ) by {
            assert(rest[2 * i] == p[2 * (i + 1)] && rest[2 * i + 1] == p[2 * (i + 1) + 1]);
        }
        lemma_program_round_trip(rest);
        assert(round_trips(p[0], p[1])) by {
            assert(p[2 * 0int + 1] == p[1]);
        }
        let hi = p[0];
        let lo = p[1];
        lemma_word_round_trip(hi, lo);
        lemma_line_ends(hi, lo);
        let x = line_of(hi, lo).drop_last();
        let empty = Seq::<char>::empty();
        assert(listing(p) == x + seq!['\n'] + listing(rest));
        lemma_assemble_concat(x, listing(rest));
        lemma_assemble_concat(x, empty);
        assert(listing(seq![hi, lo]) =~= x + seq!['\n'] + empty) by {
            assert(seq![hi, lo].skip(2) =~= Seq::<u8>::empty());
            assert(listing(seq![hi, lo].skip(2)) =~= empty);
        }
        assert(assemble_text(empty) =~= Seq::<u8>::empty()) by {
            assert(split_tokens(empty) =~= Seq::<Seq<char>>::empty());
        }
        assert(seq![hi, lo] + rest =~= p);
    }
}

} // verus!
