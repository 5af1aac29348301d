use vstd::prelude::*;
use crate::instruction::{decode, decode_spec, word_of};
use crate::mnemonic::{instruction_words, join, render, words};

verus! {

/// The mnemonic line of the word made of `hi` and `lo`, with its line break.
#[verifier::opaque]
pub open spec fn line_of(hi: u8, lo: u8) -> Seq<char> {
    render(decode_spec(word_of(hi, lo))) + seq!['\n']
}

/// The listing of a program: one mnemonic line, ended by a line break, per
/// pair of bytes; a trailing odd byte is ignored.
pub open spec fn listing(program: Seq<u8>) -> Seq<char>
    decreases program.len(),
{
    if program.len() < 2 {
        seq![]
    } else {
        line_of(program[0], program[1]) + listing(program.skip(2))
    }
}

/// Relies on String::push: the string afterwards is the old one followed by `c`.
#[verifier::external_body]
fn push_char(s: &mut String, c: char)
    ensures
        final(s)@ == old(s)@.push(c),
{
    s.push(c);
}

fn push_chars(s: &mut String, w: &Vec<char>)
    ensures
        final(s)@ == old(s)@ + w@,
{
    let mut i: usize = 0;
    while i < w.len()
        invariant
            i <= w@.len(),
            s@ == old(s)@ + w@.take(i as int),
        decreases w@.len() - i,
    {
        push_char(s, w[i]);
        proof {
            assert(w@.take(i + 1) =~= w@.take(i as int).push(w@[i as int]));
        }
        i = i + 1;
    }
    assert(w@.take(w@.len() as int) =~= w@);
}

proof fn lemma_join_step(ws: Seq<Seq<char>>, k: int)
    requires
        0 < k < ws.len(),
    ensures
        join(ws.take(k + 1)) == join(ws.take(k)) + seq![' '] + ws[k],
    decreases k,
{
    let a = ws.take(k + 1);
    assert(a.drop_first() =~= ws.drop_first().take(k));
    if k == 1 {
        assert(ws.take(1).len() == 1);
        assert(join(ws.drop_first().take(1)) == ws[1]);
    } else {
        lemma_join_step(ws.drop_first(), k - 1);
        assert(ws.take(k).drop_first() =~= ws.drop_first().take(k - 1));
        assert(ws.drop_first()[k - 1] == ws[k]);
    }
    assert(join(ws.take(k + 1)) == join(ws.take(k)) + seq![' '] + ws[k]) by {
        if k > 1 {
            assert(join(a) == a[0] + seq![' '] + join(a.drop_first()));
            assert(join(ws.take(k)) == ws[0] + seq![' '] + join(ws.take(k).drop_first()));
        }
    }
}

fn push_joined(s: &mut String, ws: &Vec<Vec<char>>, spec_ws: Ghost<Seq<Seq<char>>>)
    requires
        ws@.len() == spec_ws@.len(),
        forall|i: int| 0 <= i < ws@.len() ==> #[trigger] ws@[i]@ == spec_ws@[i],
    ensures
        final(s)@ == old(s)@ + join(spec_ws@),
{
    let ghost sw = spec_ws@;
    if ws.len() == 0 {
        assert(join(sw) =~= Seq::<char>::empty());
        return;
    }
    push_chars(s, &ws[0]);
    assert(sw.take(1).len() == 1);
    let mut i: usize = 1;
    while i < ws.len()
        invariant
            1 <= i <= ws@.len(),
            ws@.len() == sw.len(),
            forall|k: int| 0 <= k < ws@.len() ==> #[trigger] ws@[k]@ == sw[k],
            s@ == old(s)@ + join(sw.take(i as int)),
        decreases ws@.len() - i,
    {
        push_char(s, ' ');
        push_chars(s, &ws[i]);
        proof {
            lemma_join_step(sw, i as int);
        }
        i = i + 1;
    }
    assert(sw.take(sw.len() as int) =~= sw);
}

#[verifier::rlimit(40)]
fn push_line(out: &mut String, hi: u8, lo: u8)
    ensures
        final(out)@ == old(out)@ + line_of(hi, lo),
{
    reveal(line_of);
    let op = (hi as u16) * 256 + lo as u16;
    let ins = decode(op);
    let ws = instruction_words(ins);
    push_joined(out, &ws, Ghost(words(ins)));
    push_char(out, '\n');
}

/// Renders a program as mnemonic text, two bytes per line.
pub fn disassemble(program: &[u8]) -> (r: String)
    ensures
        r@ == listing(program@),
{
    let mut out = String::new();
    let mut i: usize = 0;
    assert(program@.skip(0) =~= program@);
    while program.len() - i >= 2
        invariant
            i <= program@.len(),
            out@ + listing(program@.skip(i as int)) == listing(program@),
        decreases program@.len() - i,
    {
        let ghost before = out@;
        push_line(&mut out, program[i], program[i + 1]);
        proof {
            let rest = program@.skip(i as int);
            assert(rest.skip(2) =~= program@.skip(i + 2));
            assert(out@ + listing(rest.skip(2)) =~= before + listing(rest));
        }
        i = i + 2;
    }
    proof {
        assert(out@ + listing(program@.skip(i as int)) =~= out@);
    }
    out
}

} // verus!
