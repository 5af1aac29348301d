use vstd::prelude::*;
use crate::text::{
    lemma_line, line_len, parse_hex, parse_hex_at, split_tokens, tokenize, words_view,
};

verus! {

/// The `i`-th word of a line, or the empty word when the line has fewer.
pub open spec fn arg(t: Seq<Seq<char>>, i: int) -> Seq<char> {
    if 0 <= i < t.len() {
        t[i]
    } else {
        seq![]
    }
}

/// Whether `w` begins with `p`.
pub open spec fn starts(w: Seq<char>, p: Seq<char>) -> bool {
    p.len() <= w.len() && w.take(p.len() as int) == p
}

/// A hexadecimal operand below `limit`, or `0xF` where it is not one.
pub open spec fn number_or_sentinel(w: Seq<char>, limit: nat) -> nat {
    match parse_hex(w, limit) {
        Some(v) => v,
        None => 0xF,
    }
}

/// An 8-bit operand.
pub open spec fn byte_operand(w: Seq<char>) -> u8 {
    number_or_sentinel(w, 256) as u8
}

/// A 16-bit address operand.
pub open spec fn addr_operand(w: Seq<char>) -> u16 {
    number_or_sentinel(w, 65536) as u16
}

/// A register operand: the number after its first character.
pub open spec fn reg_operand(w: Seq<char>) -> u8 {
    if w.len() == 0 {
        0xF
    } else {
        byte_operand(w.drop_first())
    }
}

/// An instruction that carries an address: `op` ors bits 8 to 11 of `a`
/// into its first byte; the second byte is the low byte of `a`.
pub open spec fn addr_bytes(op: u8, a: u16) -> Seq<u8> {
    seq![op | ((a & 0xF00u16) >> 8u16) as u8, (a & 0xFFu16) as u8]
}

/// The second byte of an instruction that names `Vy` in bits 4 to 7.
pub open spec fn y_byte(y: u8, low: u8) -> u8 {
    (y << 4u8) | low
}

/// The bytes of one line of assembly, given its words. A line whose
/// mnemonic is not known gives no bytes.
pub open spec fn encode_line(t: Seq<Seq<char>>) -> Seq<u8> {
    let m = arg(t, 0);
    let a = arg(t, 1);
    let b = arg(t, 2);
    let c = arg(t, 3);
    let x = reg_operand(a);
    if m == seq!['N', 'O', 'P'] {
        seq![0x00u8, 0x00u8]
    } else if m == seq!['C', 'L', 'S'] {
        seq![0x00u8, 0xE0u8]
    } else if m == seq!['R', 'E', 'T'] {
        seq![0x00u8, 0xEEu8]
    } else if m == seq!['J', 'P'] {
        if starts(a, seq!['V']) {
            addr_bytes(0xB0, addr_operand(b))
        } else {
            addr_bytes(0x10, addr_operand(a))
        }
    } else if m == seq!['C', 'A', 'L', 'L'] {
        addr_bytes(0x20, addr_operand(a))
    } else if m == seq!['S', 'E'] {
        if starts(b, seq!['V']) {
            seq![0x50u8 | x, y_byte(reg_operand(b), 0)]
        } else {
            seq![0x30u8 | x, byte_operand(b)]
        }
    } else if m == seq!['S', 'N', 'E'] {
        if starts(b, seq!['V']) {
            seq![0x90u8 | x, y_byte(reg_operand(b), 0)]
        } else {
            seq![0x40u8 | x, byte_operand(b)]
        }
    } else if m == seq!['L', 'D'] {
        if starts(a, seq!['V']) {
            if starts(b, seq!['V']) {
                seq![0x80u8 | x, y_byte(reg_operand(b), 0)]
            } else if starts(b, seq!['D', 'T']) {
                seq![0xF0u8 | x, 0x07u8]
            } else if starts(b, seq!['K']) {
                seq![0xF0u8 | x, 0x0Au8]
            } else if starts(b, seq!['[', 'I', ']']) {
                seq![0xF0u8 | x, 0x65u8]
            } else {
                seq![0x60u8 | x, byte_operand(b)]
            }
        } else if starts(a, seq!['I']) {
            addr_bytes(0xA0, addr_operand(b))
        } else if starts(a, seq!['D', 'T']) {
            seq![0xF0u8 | reg_operand(b), 0x15u8]
        } else if starts(a, seq!['S', 'T']) {
            seq![0xF0u8 | reg_operand(b), 0x18u8]
        } else if starts(a, seq!['F']) {
            seq![0xF0u8 | reg_operand(b), 0x29u8]
        } else if starts(a, seq!['B']) {
            seq![0xF0u8 | reg_operand(b), 0x33u8]
        } else if starts(a, seq!['[', 'I', ']']) {
            seq![0xF0u8 | reg_operand(b), 0x55u8]
        } else {
            seq![]
        }
    } else if m == seq!['A', 'D', 'D'] {
        if starts(a, seq!['V']) {
            if starts(b, seq!['V']) {
                seq![0x80u8 | x, y_byte(reg_operand(b), 0x04)]
            } else {
                seq![0x70u8 | x, byte_operand(b)]
            }
        } else if starts(a, seq!['I']) {
            seq![0xF0u8 | reg_operand(b), 0x1Eu8]
        } else {
            seq![]
        }
    } else if m == seq!['O', 'R'] {
        seq![0x80u8 | x, y_byte(reg_operand(b), 0x01)]
    } else if m == seq!['A', 'N', 'D'] {
        seq![0x80u8 | x, y_byte(reg_operand(b), 0x02)]
    } else if m == seq!['X', 'O', 'R'] {
        seq![0x80u8 | x, y_byte(reg_operand(b), 0x03)]
    } else if m == seq!['S', 'U', 'B'] {
        seq![0x80u8 | x, y_byte(reg_operand(b), 0x05)]
    } else if m == seq!['S', 'H', 'R'] {
        seq![0x80u8 | x, 0x06u8]
    } else if m == seq!['S', 'U', 'B', 'N'] {
        seq![0x80u8 | x, y_byte(reg_operand(b), 0x07)]
    } else if m == seq!['S', 'H', 'L'] {
        seq![0x80u8 | x, 0x0Eu8]
    } else if m == seq!['R', 'N', 'D'] {
        seq![0xC0u8 | x, byte_operand(b)]
    } else if m == seq!['D', 'R', 'W'] {
        seq![0xD0u8 | x, y_byte(reg_operand(b), byte_operand(c))]
    } else if m == seq!['S', 'K', 'P'] {
        seq![0xE0u8 | x, 0x9Eu8]
    } else if m == seq!['S', 'K', 'N', 'P'] {
        seq![0xE0u8 | x, 0xA1u8]
    } else {
        seq![]
    }
}

/// The machine code of a program text: the bytes of each line, in order.
/// Lines end at line breaks; other whitespace separates words.
pub open spec fn assemble_text(s: Seq<char>) -> Seq<u8>
    decreases s.len(),
{
    let n = line_len(s);
    if n < s.len() {
        encode_line(split_tokens(s.take(n as int))) + assemble_text(s.skip(n + 1 as int))
    } else {
        encode_line(split_tokens(s))
    }
}

/// The characters of `s`.
fn chars_of(s: &str) -> (r: Vec<char>)
    ensures
        r@ == s@,
{
    let mut v: Vec<char> = Vec::new();
    for c in it: s.chars()
        invariant
            v@ == it.seq().take(it.index() as int),
    {
        v.push(c);
    }
    v
}

fn arg_is(t: &Vec<Vec<char>>, i: usize, w: &[char]) -> (r: bool)
    requires
        w@.len() > 0,
    ensures
        r == (arg(words_view(t@), i as int) == w@),
{
    if i >= t.len() {
        return false;
    }
    let v = &t[i];
    assert(words_view(t@)[i as int] == v@);
    if v.len() != w.len() {
        return false;
    }
    let mut k: usize = 0;
    while k < v.len()
        invariant
            v@.len() == w@.len(),
            0 <= i < t@.len(),
            v@ == words_view(t@)[i as int],
            k <= v@.len(),
            forall|j: int| 0 <= j < k ==> v@[j] == w@[j],
        decreases v@.len() - k,
    {
        if v[k] != w[k] {
            assert(v@[k as int] != w@[k as int]);
            return false;
        }
        k = k + 1;
    }
    assert(v@ =~= w@);
    true
}

fn arg_starts(t: &Vec<Vec<char>>, i: usize, p: &[char]) -> (r: bool)
    requires
        p@.len() > 0,
    ensures
        r == starts(arg(words_view(t@), i as int), p@),
{
    if i >= t.len() {
        return false;
    }
    let v = &t[i];
    assert(words_view(t@)[i as int] == v@);
    if v.len() < p.len() {
        return false;
    }
    let mut k: usize = 0;
    while k < p.len()
        invariant
            p@.len() <= v@.len(),
            0 <= i < t@.len(),
            v@ == words_view(t@)[i as int],
            k <= p@.len(),
            forall|j: int| 0 <= j < k ==> v@[j] == p@[j],
        decreases p@.len() - k,
    {
        if v[k] != p[k] {
            assert(v@.take(p@.len() as int)[k as int] != p@[k as int]);
            return false;
        }
        k = k + 1;
    }
    assert(v@.take(p@.len() as int) =~= p@);
    true
}

fn arg_starts_with(t: &Vec<Vec<char>>, i: usize, c: char) -> (r: bool)
    ensures
        r == starts(arg(words_view(t@), i as int), seq![c]),
{
    if i >= t.len() || t[i].len() == 0 {
        return false;
    }
    proof {
        let w = words_view(t@)[i as int];
        assert(w == t@[i as int]@);
        if w[0] == c {
            assert(w.take(1) =~= seq![c]);
        } else {
            assert(w.take(1)[0] != seq![c][0]);
        }
    }
    t[i][0] == c
}

fn number_at(w: &Vec<char>, from: usize, limit: u32) -> (r: u32)
    requires
        from <= w@.len(),
        16 <= limit <= 65536,
    ensures
        r == number_or_sentinel(w@.skip(from as int), limit as nat),
        r < limit,
{
    match parse_hex_at(w, from, limit) {
        Some(v) => v,
        None => 0xF,
    }
}

fn arg_byte(t: &Vec<Vec<char>>, i: usize) -> (r: u8)
    ensures
        r == byte_operand(arg(words_view(t@), i as int)),
{
    if i >= t.len() {
        return 0xF;
    }
    assert(t@[i as int]@.skip(0) =~= t@[i as int]@);
    number_at(&t[i], 0, 256) as u8
}

fn arg_addr(t: &Vec<Vec<char>>, i: usize) -> (r: u16)
    ensures
        r == addr_operand(arg(words_view(t@), i as int)),
{
    if i >= t.len() {
        return 0xF;
    }
    assert(t@[i as int]@.skip(0) =~= t@[i as int]@);
    number_at(&t[i], 0, 65536) as u16
}

fn arg_reg(t: &Vec<Vec<char>>, i: usize) -> (r: u8)
    ensures
        r == reg_operand(arg(words_view(t@), i as int)),
{
    if i >= t.len() || t[i].len() == 0 {
        return 0xF;
    }
    assert(t@[i as int]@.skip(1) =~= t@[i as int]@.drop_first());
    number_at(&t[i], 1, 256) as u8
}

fn push_pair(out: &mut Vec<u8>, b0: u8, b1: u8)
    ensures
        final(out)@ == old(out)@ + seq![b0, b1],
{
    out.push(b0);
    out.push(b1);
    assert(out@ =~= old(out)@ + seq![b0, b1]);
}

fn y_byte_of(y: u8, low: u8) -> (r: u8)
    ensures
        r == y_byte(y, low),
{
    (y << 4) | low
}

fn push_addr(out: &mut Vec<u8>, op: u8, a: u16)
    ensures
        final(out)@ == old(out)@ + addr_bytes(op, a),
{
    push_pair(out, op | ((a & 0xF00) >> 8) as u8, (a & 0xFF) as u8);
}

/// Appends the bytes of one line, given its words.
#[verifier::rlimit(40)]
fn encode_line_into(t: &Vec<Vec<char>>, out: &mut Vec<u8>)
    ensures
        final(out)@ == old(out)@ + encode_line(words_view(t@)),
{
    let ghost tv = words_view(t@);
    if arg_is(t, 0, &['N', 'O', 'P']) {
        push_pair(out, 0x00, 0x00);
    } else if arg_is(t, 0, &['C', 'L', 'S']) {
        push_pair(out, 0x00, 0xE0);
    } else if arg_is(t, 0, &['R', 'E', 'T']) {
        push_pair(out, 0x00, 0xEE);
    } else if arg_is(t, 0, &['J', 'P']) {
        if arg_starts_with(t, 1, 'V') {
            push_addr(out, 0xB0, arg_addr(t, 2));
        } else {
            push_addr(out, 0x10, arg_addr(t, 1));
        }
    } else if arg_is(t, 0, &['C', 'A', 'L', 'L']) {
        push_addr(out, 0x20, arg_addr(t, 1));
    } else if arg_is(t, 0, &['S', 'E']) {
        let x = arg_reg(t, 1);
        if arg_starts_with(t, 2, 'V') {
            push_pair(out, 0x50 | x, y_byte_of(arg_reg(t, 2), 0));
        } else {
            push_pair(out, 0x30 | x, arg_byte(t, 2));
        }
    } else if arg_is(t, 0, &['S', 'N', 'E']) {
        let x = arg_reg(t, 1);
        if arg_starts_with(t, 2, 'V') {
            push_pair(out, 0x90 | x, y_byte_of(arg_reg(t, 2), 0));
        } else {
            push_pair(out, 0x40 | x, arg_byte(t, 2));
        }
    } else if arg_is(t, 0, &['L', 'D']) {
        if arg_starts_with(t, 1, 'V') {
            let x = arg_reg(t, 1);
            if arg_starts_with(t, 2, 'V') {
                push_pair(out, 0x80 | x, y_byte_of(arg_reg(t, 2), 0));
            } else if arg_starts(t, 2, &['D', 'T']) {
                push_pair(out, 0xF0 | x, 0x07);
            } else if arg_starts_with(t, 2, 'K') {
                push_pair(out, 0xF0 | x, 0x0A);
            } else if arg_starts(t, 2, &['[', 'I', ']']) {
                push_pair(out, 0xF0 | x, 0x65);
            } else {
                push_pair(out, 0x60 | x, arg_byte(t, 2));
            }
        } else if arg_starts_with(t, 1, 'I') {
            push_addr(out, 0xA0, arg_addr(t, 2));
        } else if arg_starts(t, 1, &['D', 'T']) {
            push_pair(out, 0xF0 | arg_reg(t, 2), 0x15);
        } else if arg_starts(t, 1, &['S', 'T']) {
            push_pair(out, 0xF0 | arg_reg(t, 2), 0x18);
        } else if arg_starts_with(t, 1, 'F') {
            push_pair(out, 0xF0 | arg_reg(t, 2), 0x29);
        } else if arg_starts_with(t, 1, 'B') {
            push_pair(out, 0xF0 | arg_reg(t, 2), 0x33);
        } else if arg_starts(t, 1, &['[', 'I', ']']) {
            push_pair(out, 0xF0 | arg_reg(t, 2), 0x55);
        } else {
            assert(out@ =~= old(out)@ + Seq::<u8>::empty());
        }
    } else if arg_is(t, 0, &['A', 'D', 'D']) {
        if arg_starts_with(t, 1, 'V') {
            let x = arg_reg(t, 1);
            if arg_starts_with(t, 2, 'V') {
                push_pair(out, 0x80 | x, y_byte_of(arg_reg(t, 2), 0x04));
            } else {
                push_pair(out, 0x70 | x, arg_byte(t, 2));
            }
        } else if arg_starts_with(t, 1, 'I') {
            push_pair(out, 0xF0 | arg_reg(t, 2), 0x1E);
        } else {
            assert(out@ =~= old(out)@ + Seq::<u8>::empty());
        }
    } else if arg_is(t, 0, &['O', 'R']) {
        push_pair(out, 0x80 | arg_reg(t, 1), y_byte_of(arg_reg(t, 2), 0x01));
    } else if arg_is(t, 0, &['A', 'N', 'D']) {
        push_pair(out, 0x80 | arg_reg(t, 1), y_byte_of(arg_reg(t, 2), 0x02));
    } else if arg_is(t, 0, &['X', 'O', 'R']) {
        push_pair(out, 0x80 | arg_reg(t, 1), y_byte_of(arg_reg(t, 2), 0x03));
    } else if arg_is(t, 0, &['S', 'U', 'B']) {
        push_pair(out, 0x80 | arg_reg(t, 1), y_byte_of(arg_reg(t, 2), 0x05));
    } else if arg_is(t, 0, &['S', 'H', 'R']) {
        push_pair(out, 0x80 | arg_reg(t, 1), 0x06);
    } else if arg_is(t, 0, &['S', 'U', 'B', 'N']) {
        push_pair(out, 0x80 | arg_reg(t, 1), y_byte_of(arg_reg(t, 2), 0x07));
    } else if arg_is(t, 0, &['S', 'H', 'L']) {
        push_pair(out, 0x80 | arg_reg(t, 1), 0x0E);
    } else if arg_is(t, 0, &['R', 'N', 'D']) {
        push_pair(out, 0xC0 | arg_reg(t, 1), arg_byte(t, 2));
    } else if arg_is(t, 0, &['D', 'R', 'W']) {
        push_pair(out, 0xD0 | arg_reg(t, 1), y_byte_of(arg_reg(t, 2), arg_byte(t, 3)));
    } else if arg_is(t, 0, &['S', 'K', 'P']) {
        push_pair(out, 0xE0 | arg_reg(t, 1), 0x9E);
    } else if arg_is(t, 0, &['S', 'K', 'N', 'P']) {
        push_pair(out, 0xE0 | arg_reg(t, 1), 0xA1);
    } else {
        assert(out@ =~= old(out)@ + Seq::<u8>::empty());
    }
}

/// Turns program text into machine code, one instruction per line.
///
/// Words are separated by whitespace. A malformed number stands for `0xF`;
/// a line with an unknown mnemonic (or none) adds no bytes.
#[verifier::rlimit(40)]
pub fn assemble(program: &str) -> (r: Vec<u8>)
    ensures
        r@ == assemble_text(program@),
{
    let chars = chars_of(program);
    let mut out: Vec<u8> = Vec::new();
    let mut i: usize = 0;
    assert(chars@.skip(0) =~= chars@);
    loop
        invariant
            i <= chars@.len(),
            out@ + assemble_text(chars@.skip(i as int)) == assemble_text(chars@),
        ensures
            out@ == assemble_text(chars@),
        decreases chars@.len() - i,
    {
        let start = i;
        let mut line: Vec<char> = Vec::new();
        while i < chars.len() && chars[i] != '\n'
            invariant
                start <= i <= chars@.len(),
                line@ == chars@.subrange(start as int, i as int),
                forall|k: int| start <= k < i ==> #[trigger] chars@[k] != '\n',
            decreases chars@.len() - i,
        {
            line.push(chars[i]);
            i = i + 1;
            assert(line@ =~= chars@.subrange(start as int, i as int));
        }
        proof {
            lemma_line(chars@, start as int, i as int);
        }
        let toks = tokenize(&line);
        let ghost before = out@;
        encode_line_into(&toks, &mut out);
        let ghost rest = chars@.skip(start as int);
        if i == chars.len() {
            assert(rest =~= line@);
            assert(out@ =~= before + assemble_text(rest));
            break;
        }
        proof {
            assert(rest.take(i - start) =~= line@);
            assert(rest.skip(i - start + 1) =~= chars@.skip(i + 1));
            assert(out@ + assemble_text(chars@.skip(i + 1)) =~= before + assemble_text(rest));
        }
        i = i + 1;
    }
    out
}

/// Whether `m` is one of the mnemonics that the assembler knows.
pub open spec fn is_mnemonic(m: Seq<char>) -> bool {
    m == seq!['N', 'O', 'P'] || m == seq!['C', 'L', 'S'] || m == seq!['R', 'E', 'T'] || m
        == seq!['J', 'P'] || m == seq!['C', 'A', 'L', 'L'] || m == seq!['S', 'E'] || m == seq![
        'S',
        'N',
        'E',
    ] || m == seq!['L', 'D'] || m == seq!['A', 'D', 'D'] || m == seq!['O', 'R'] || m == seq![
        'A',
        'N',
        'D',
    ] || m == seq!['X', 'O', 'R'] || m == seq!['S', 'U', 'B'] || m == seq!['S', 'H', 'R'] || m
        == seq!['S', 'U', 'B', 'N'] || m == seq!['S', 'H', 'L'] || m == seq!['R', 'N', 'D'] || m
        == seq!['D', 'R', 'W'] || m == seq!['S', 'K', 'P'] || m == seq!['S', 'K', 'N', 'P']
}

proof fn lemma_line_len(s: Seq<char>)
    ensures
        line_len(s) <= s.len(),
        forall|i: int| 0 <= i < line_len(s) ==> #[trigger] s[i] != '\n',
        line_len(s) < s.len() ==> s[line_len(s) as int] == '\n',
    decreases s.len(),
{
    if s.len() > 0 && s[0] != '\n' {
        lemma_line_len(s.drop_first());
        assert forall|i: int| 0 <= i < line_len(s) implies #[trigger] s[i] != '\n' by {
            if i > 0 {
                assert(s[i] == s.drop_first()[i - 1]);
            }
        }
    }
}

/// Assembling two texts joined by a line break gives the bytes of the first
/// followed by the bytes of the second.
pub proof fn lemma_assemble_concat(a: Seq<char>, b: Seq<char>)
    ensures
        assemble_text(a + seq!['\n'] + b) == assemble_text(a) + assemble_text(b),
    decreases a.len(),
{
    let s = a + seq!['\n'] + b;
    lemma_line_len(a);
    let k = line_len(a) as int;
    if k < a.len() {
        assert forall|i: int| 0 <= i < k implies #[trigger] s[i] != '\n' by {
            assert(s[i] == a[i]);
        }
        lemma_line(s, 0, k);
        assert(s.skip(0) =~= s);
        assert(s.take(k) =~= a.take(k));
        let a2 = a.skip(k + 1);
        assert(s.skip(k + 1) =~= a2 + seq!['\n'] + b);
        lemma_assemble_concat(a2, b);
    } else {
        assert forall|i: int| 0 <= i < k implies #[trigger] s[i] != '\n' by {
            assert(s[i] == a[i]);
        }
        lemma_line(s, 0, k);
        assert(s.skip(0) =~= s);
        assert(s.take(k) =~= a);
        assert(s.skip(k + 1) =~= b);
    }
}

/// A line whose first word is not a known mnemonic adds no bytes to what
/// the lines before it give.
pub proof fn lemma_unknown_mnemonic_line(before: Seq<char>, line: Seq<char>)
    requires
        forall|i: int| 0 <= i < line.len() ==> line[i] != '\n',
        !is_mnemonic(arg(split_tokens(line), 0)),
    ensures
        assemble_text(before + seq!['\n'] + line) == assemble_text(before),
{
    lemma_assemble_concat(before, line);
    lemma_line_len(line);
    assert(encode_line(split_tokens(line)) =~= Seq::<u8>::empty());
    assert(assemble_text(line) =~= Seq::<u8>::empty());
    assert(assemble_text(before) + assemble_text(line) =~= assemble_text(before));
}

} // verus!
