use vstd::prelude::*;

verus! {

/// Unicode's White_Space property.
pub open spec fn is_space(c: char) -> bool {
    let u = c as u32;
    (0x09 <= u <= 0x0D) || u == 0x20 || u == 0x85 || u == 0xA0 || u == 0x1680 || (0x2000 <= u
        <= 0x200A) || u == 0x2028 || u == 0x2029 || u == 0x202F || u == 0x205F || u == 0x3000
}

/// The whitespace-separated words of `s`, in order.
///
/// A character that is not whitespace either ends a word (when the next
/// character is whitespace or there is none) or is the first character of
/// the first word of the rest.
pub open spec fn split_tokens(s: Seq<char>) -> Seq<Seq<char>>
    decreases s.len(),
{
    if s.len() == 0 {
        seq![]
    } else {
        let rest = split_tokens(s.drop_first());
        if is_space(s[0]) {
            rest
        } else if s.len() > 1 && !is_space(s[1]) {
            seq![seq![s[0]] + rest[0]] + rest.drop_first()
        } else {
            seq![seq![s[0]]] + rest
        }
    }
}

/// The number of characters of `s` before its first line break.
pub open spec fn line_len(s: Seq<char>) -> nat
    decreases s.len(),
{
    if s.len() == 0 || s[0] == '\n' {
        0
    } else {
        1 + line_len(s.drop_first())
    }
}

/// The value of a hexadecimal digit (either case).
pub open spec fn digit_value(c: char) -> Option<nat> {
    let u = c as u32;
    if 0x30 <= u <= 0x39 {
        Some((u - 0x30) as nat)
    } else if 0x41 <= u <= 0x46 {
        Some((u - 0x41 + 10) as nat)
    } else if 0x61 <= u <= 0x66 {
        Some((u - 0x61 + 10) as nat)
    } else {
        None
    }
}

/// The value of a run of hexadecimal digits; `None` when one is not a digit.
pub open spec fn digits_value(s: Seq<char>) -> Option<nat>
    decreases s.len(),
{
    if s.len() == 0 {
        Some(0)
    } else {
        match digits_value(s.drop_last()) {
            Some(v) => match digit_value(s.last()) {
                Some(d) => Some(v * 16 + d),
                None => None,
            },
            None => None,
        }
    }
}

/// An unsigned hexadecimal literal below `limit`: an optional `+`, then at
/// least one digit.
pub open spec fn parse_hex(s: Seq<char>, limit: nat) -> Option<nat> {
    let body = if s.len() > 0 && s[0] == '+' {
        s.drop_first()
    } else {
        s
    };
    if body.len() == 0 {
        None
    } else {
        match digits_value(body) {
            Some(v) => if v < limit {
                Some(v)
            } else {
                None
            },
            None => None,
        }
    }
}

/// Whether `c` is whitespace.
pub fn is_space_char(c: char) -> (r: bool)
    ensures
        r == is_space(c),
{
    let u = c as u32;
    (0x09 <= u && u <= 0x0D) || u == 0x20 || u == 0x85 || u == 0xA0 || u == 0x1680 || (0x2000
        <= u && u <= 0x200A) || u == 0x2028 || u == 0x2029 || u == 0x202F || u == 0x205F || u
        == 0x3000
}

fn digit_of(c: char) -> (r: Option<u32>)
    ensures
        match r {
            Some(d) => digit_value(c) == Some(d as nat) && d < 16,
            None => digit_value(c) is None,
        },
{
    let u = c as u32;
    if 0x30 <= u && u <= 0x39 {
        Some(u - 0x30)
    } else if 0x41 <= u && u <= 0x46 {
        Some(u - 0x41 + 10)
    } else if 0x61 <= u && u <= 0x66 {
        Some(u - 0x61 + 10)
    } else {
        None
    }
}

proof fn lemma_digits_none(s: Seq<char>, k: int)
    requires
        0 <= k < s.len(),
        digit_value(s[k]) is None,
    ensures
        digits_value(s) is None,
    decreases s.len(),
{
    if k < s.len() - 1 {
        lemma_digits_none(s.drop_last(), k);
    }
}

/// The hexadecimal literal that `t` holds from position `from` on, if it
/// is one below `limit`.
pub fn parse_hex_at(t: &Vec<char>, from: usize, limit: u32) -> (r: Option<u32>)
    requires
        from <= t@.len(),
        16 <= limit <= 65536,
    ensures
        match r {
            Some(v) => parse_hex(t@.skip(from as int), limit as nat) == Some(v as nat),
            None => parse_hex(t@.skip(from as int), limit as nat) is None,
        },
{
    let ghost s = t@.skip(from as int);
    let mut i = from;
    if i < t.len() && t[i] == '+' {
        i = i + 1;
    }
    let start = i;
    let ghost body = t@.skip(start as int);
    assert(body =~= (if s.len() > 0 && s[0] == '+' { s.drop_first() } else { s }));
    if start == t.len() {
        return None;
    }
    let mut acc: u32 = 0;
    let mut over = false;
    assert(t@.subrange(start as int, start as int) =~= Seq::<char>::empty());
    while i < t.len()
        invariant
            start <= i <= t@.len(),
            body == t@.skip(start as int),
            s == t@.skip(from as int),
            body.len() > 0,
            body == (if s.len() > 0 && s[0] == '+' {
                s.drop_first()
            } else {
                s
            }),
            16 <= limit <= 65536,
            digits_value(t@.subrange(start as int, i as int)) is Some,
            over ==> digits_value(t@.subrange(start as int, i as int))->0 >= limit,
            !over ==> digits_value(t@.subrange(start as int, i as int))->0 == acc && acc < limit,
        decreases t@.len() - i,
    {
        let ghost pre = t@.subrange(start as int, i as int);
        let ghost next = t@.subrange(start as int, i + 1);
        assert(next.drop_last() =~= pre);
        match digit_of(t[i]) {
            None => {
                proof {
                    assert(body[i - start] == t@[i as int]);
                    lemma_digits_none(body, i - start);
                }
                return None;
            },
            Some(d) => {
                if !over {
                    acc = acc * 16 + d;
                    if acc >= limit {
                        over = true;
                    }
                }
            },
        }
        i = i + 1;
    }
    assert(t@.subrange(start as int, i as int) =~= body);
    if over {
        None
    } else {
        Some(acc)
    }
}

/// The characters of each word.
pub open spec fn words_view(v: Seq<Vec<char>>) -> Seq<Seq<char>> {
    v.map_values(|w: Vec<char>| w@)
}

proof fn lemma_space_skip(s: Seq<char>, j: int)
    requires
        0 <= j < s.len(),
        is_space(s[j]),
    ensures
        split_tokens(s.skip(j)) == split_tokens(s.skip(j + 1)),
{
    assert(s.skip(j).drop_first() =~= s.skip(j + 1));
}

/// A maximal run of non-whitespace characters is the first word of what
/// starts with it.
pub proof fn lemma_token(s: Seq<char>, j: int, k: int)
    requires
        0 <= j < k <= s.len(),
        forall|i: int| j <= i < k ==> !is_space(#[trigger] s[i]),
        k == s.len() || is_space(s[k]),
    ensures
        split_tokens(s.skip(j)) == seq![s.subrange(j, k)] + split_tokens(s.skip(k)),
    decreases k - j,
{
    let u = s.skip(j);
    assert(u.drop_first() =~= s.skip(j + 1));
    assert(!is_space(s[j]));
    if j + 1 == k {
        assert(s.subrange(j, k) =~= seq![s[j]]);
        if u.len() > 1 {
            assert(u[1] == s[k]);
        }
    } else {
        lemma_token(s, j + 1, k);
        assert(!is_space(s[j + 1]));
        assert(u[1] == s[j + 1]);
        let rest = split_tokens(s.skip(j + 1));
        assert(rest[0] == s.subrange(j + 1, k));
        assert(rest.drop_first() =~= split_tokens(s.skip(k)));
        assert(seq![s[j]] + s.subrange(j + 1, k) =~= s.subrange(j, k));
        assert(split_tokens(u) =~= seq![s.subrange(j, k)] + split_tokens(s.skip(k)));
    }
}

/// Splits `line` into its whitespace-separated words.
pub fn tokenize(line: &Vec<char>) -> (r: Vec<Vec<char>>)
    ensures
        words_view(r@) == split_tokens(line@),
{
    let mut toks: Vec<Vec<char>> = Vec::new();
    let mut i: usize = 0;
    assert(line@.skip(0) =~= line@);
    while i < line.len()
        invariant
            i <= line@.len(),
            words_view(toks@) + split_tokens(line@.skip(i as int)) == split_tokens(line@),
        decreases line@.len() - i,
    {
        if is_space_char(line[i]) {
            proof {
                lemma_space_skip(line@, i as int);
            }
            i = i + 1;
        } else {
            let start = i;
            let mut w: Vec<char> = Vec::new();
            while i < line.len() && !is_space_char(line[i])
                invariant
                    start <= i <= line@.len(),
                    w@ == line@.subrange(start as int, i as int),
                    forall|k: int| start <= k < i ==> !is_space(#[trigger] line@[k]),
                decreases line@.len() - i,
            {
                w.push(line[i]);
                i = i + 1;
                assert(w@ =~= line@.subrange(start as int, i as int));
            }
            proof {
                lemma_token(line@, start as int, i as int);
            }
            let ghost before = toks@;
            toks.push(w);
            proof {
                assert(words_view(toks@) =~= words_view(before).push(line@.subrange(
                    start as int,
                    i as int,
                )));
            }
        }
    }
    assert(line@.skip(i as int) =~= Seq::<char>::empty());
    assert(words_view(toks@) + split_tokens(line@.skip(i as int)) =~= words_view(toks@));
    toks
}

/// The characters before the first line break of what starts at `i` are
/// those up to `j`.
pub proof fn lemma_line(s: Seq<char>, i: int, j: int)
    requires
        0 <= i <= j <= s.len(),
        forall|k: int| i <= k < j ==> #[trigger] s[k] != '\n',
        j == s.len() || s[j] == '\n',
    ensures
        line_len(s.skip(i)) == j - i,
    decreases j - i,
{
    assert(s.skip(i).len() > 0 ==> s.skip(i)[0] == s[i]);
    if i < j {
        lemma_line(s, i + 1, j);
        assert(s.skip(i).drop_first() =~= s.skip(i + 1));
    }
}

} // verus!
