//! Lexical simplification and tokenization: separators are inserted around
//! the operator and bracket glyphs, newlines collapse to spaces, the text is
//! split into chunks on the block terminator keyword, and each chunk splits
//! into whitespace-separated words.

use vstd::prelude::*;

verus! {

/// What one character of the program text contributes to the simplified
/// text: `/`, `*`, `[` and `]` get a space on each side, a newline becomes
/// a space, and every other character stands unchanged.
pub open spec fn expand_char(c: char) -> Seq<char> {
    if c == '/' {
        seq![' ', '/', ' ']
    } else if c == '*' {
        seq![' ', '*', ' ']
    } else if c == '[' {
        seq![' ', '[', ' ']
    } else if c == ']' {
        seq![' ', ']', ' ']
    } else if c == '\n' {
        seq![' ']
    } else {
        seq![c]
    }
}

/// The simplified form of the program text: each character's expansion, in
/// order.
pub open spec fn spec_simplify(s: Seq<char>) -> Seq<char>
    decreases s.len(),
{
    if s.len() == 0 {
        Seq::empty()
    } else {
        expand_char(s[0]) + spec_simplify(s.drop_first())
    }
}

/// Simplification works prefix by prefix.
proof fn lemma_simplify_snoc(s: Seq<char>, c: char)
    ensures
        spec_simplify(s.push(c)) == spec_simplify(s) + expand_char(c),
    decreases s.len(),
{
    if s.len() == 0 {
        assert(s.push(c)[0] == c);
        assert(s.push(c).drop_first() =~= Seq::<char>::empty());
        assert(spec_simplify(s.push(c).drop_first()) == Seq::<char>::empty());
        assert(spec_simplify(s.push(c)) =~= expand_char(c));
        assert(spec_simplify(s) + expand_char(c) =~= expand_char(c));
    } else {
        lemma_simplify_snoc(s.drop_first(), c);
        assert(s.push(c).drop_first() =~= s.drop_first().push(c));
        assert(spec_simplify(s.push(c)) == expand_char(s[0]) + spec_simplify(
            s.drop_first().push(c),
        ));
        assert(expand_char(s[0]) + (spec_simplify(s.drop_first()) + expand_char(c)) =~= (
        expand_char(s[0]) + spec_simplify(s.drop_first())) + expand_char(c));
    }
}

/// Relies on `String::push`: appends one character to the string.
#[verifier::external_body]
fn push_char(s: &mut String, c: char)
    ensures
        final(s)@ == old(s)@.push(c),
{
    s.push(c)
}

/// Inserts single-space separators around `/`, `*`, `[` and `]` and turns
/// newlines into spaces. This stage never fails.
#[verifier::loop_isolation(false)]
pub fn simplify(input: &str) -> (r: String)
    ensures
        r@ == spec_simplify(input@),
{
    let n = input.unicode_len();
    let mut out = String::new();
    let mut i: usize = 0;
    while i < n
        invariant
            n == input@.len(),
            i <= n,
            out@ == spec_simplify(input@.take(i as int)),
        decreases n - i,
    {
        let c = input.get_char(i);
        proof {
            lemma_simplify_snoc(input@.take(i as int), c);
            assert(input@.take(i as int).push(c) =~= input@.take(i + 1));
            reveal_strlit(" / ");
            reveal_strlit(" * ");
            reveal_strlit(" [ ");
            reveal_strlit(" ] ");
            reveal_strlit(" ");
        }
        if c == '/' {
            out.append(" / ");
            proof {
                assert(" / "@ =~= expand_char(c));
            }
        } else if c == '*' {
            out.append(" * ");
            proof {
                assert(" * "@ =~= expand_char(c));
            }
        } else if c == '[' {
            out.append(" [ ");
            proof {
                assert(" [ "@ =~= expand_char(c));
            }
        } else if c == ']' {
            out.append(" ] ");
            proof {
                assert(" ] "@ =~= expand_char(c));
            }
        } else if c == '\n' {
            out.append(" ");
            proof {
                assert(" "@ =~= expand_char(c));
            }
        } else {
            push_char(&mut out, c);
            proof {
                assert(out@ =~= spec_simplify(input@.take(i as int)) + expand_char(c));
            }
        }
        i += 1;
    }
    proof {
        assert(input@.take(n as int) =~= input@);
    }
    out
}

/// The characters of a string, as a vector.
#[verifier::loop_isolation(false)]
pub fn to_chars(s: &str) -> (r: Vec<char>)
    ensures
        r@ == s@,
{
    let n = s.unicode_len();
    let mut out: Vec<char> = Vec::new();
    let mut i: usize = 0;
    while i < n
        invariant
            n == s@.len(),
            i <= n,
            out@ == s@.take(i as int),
        decreases n - i,
    {
        out.push(s.get_char(i));
        proof {
            assert(out@ =~= s@.take(i + 1));
        }
        i += 1;
    }
    proof {
        assert(s@.take(n as int) =~= s@);
    }
    out
}

/// A string with the given characters.
#[verifier::loop_isolation(false)]
fn chars_to_string(v: &Vec<char>, from: usize, to: usize) -> (r: String)
    requires
        from <= to <= v@.len(),
    ensures
        r@ == v@.subrange(from as int, to as int),
{
    let mut out = String::new();
    let mut i: usize = from;
    while i < to
        invariant
            from <= i <= to,
            out@ == v@.subrange(from as int, i as int),
        decreases to - i,
    {
        push_char(&mut out, v[i]);
        proof {
            assert(out@ =~= v@.subrange(from as int, i + 1));
        }
        i += 1;
    }
    out
}

/// Whether a character separates words.
pub open spec fn is_space(c: char) -> bool {
    c == ' ' || c == '\t' || c == '\r' || c == '\n'
}

/// Whether the block terminator keyword occurs in `s` at position `i`.
pub open spec fn has_end_at(s: Seq<char>, i: int) -> bool {
    &&& 0 <= i
    &&& i + 3 <= s.len()
    &&& s[i] == 'e'
    &&& s[i + 1] == 'n'
    &&& s[i + 2] == 'd'
}

/// The position of the first occurrence of the block terminator keyword in
/// `s`, or -1 if there is none.
pub open spec fn find_end(s: Seq<char>) -> int
    decreases s.len(),
{
    if s.len() < 3 {
        -1
    } else if has_end_at(s, 0) {
        0
    } else {
        let r = find_end(s.drop_first());
        if r == -1 {
            -1
        } else {
            r + 1
        }
    }
}

/// `find_end` returns the smallest occurrence position, and -1 exactly when
/// there is no occurrence.
proof fn lemma_find_end_char(s: Seq<char>, n: int)
    requires
        n >= -1,
        n == -1 ==> forall|i: int| !has_end_at(s, i),
        n >= 0 ==> has_end_at(s, n) && forall|m: int| 0 <= m < n ==> !has_end_at(s, m),
    ensures
        find_end(s) == n,
    decreases s.len(),
{
    if s.len() < 3 {
        if n >= 0 {
            assert(!has_end_at(s, n));
        }
    } else if has_end_at(s, 0) {
        if n == -1 {
            assert(!has_end_at(s, 0));
        }
        if n > 0 {
            assert(!has_end_at(s, 0));
        }
        assert(n == 0);
    } else {
        let sd = s.drop_first();
        if n == -1 {
            assert forall|i: int| !has_end_at(sd, i) by {
                if has_end_at(sd, i) {
                    assert(has_end_at(s, i + 1));
                }
            }
            lemma_find_end_char(sd, -1);
        } else {
            if n == 0 {
                assert(has_end_at(s, 0));
            }
            assert(n >= 1);
            assert(has_end_at(sd, n - 1));
            assert forall|m: int| 0 <= m < n - 1 implies !has_end_at(sd, m) by {
                if has_end_at(sd, m) {
                    assert(has_end_at(s, m + 1));
                }
            }
            lemma_find_end_char(sd, n - 1);
        }
    }
}

/// The chunks of the text, split on each occurrence of the block terminator
/// keyword, in order; the keyword itself is dropped. A text with no
/// occurrence is one chunk.
pub open spec fn spec_split_end(s: Seq<char>) -> Seq<Seq<char>>
    decreases s.len(),
    via spec_split_end_decreases
{
    let f = find_end(s);
    if f < 0 {
        seq![s]
    } else {
        seq![s.take(f)] + spec_split_end(s.skip(f + 3))
    }
}

/// A nonnegative result of `find_end` leaves room for the keyword.
proof fn lemma_find_end_bounds(s: Seq<char>)
    ensures
        find_end(s) >= -1,
        find_end(s) >= 0 ==> find_end(s) + 3 <= s.len(),
    decreases s.len(),
{
    if s.len() >= 3 && !has_end_at(s, 0) {
        lemma_find_end_bounds(s.drop_first());
    }
}

#[via_fn]
proof fn spec_split_end_decreases(s: Seq<char>) {
    lemma_find_end_bounds(s);
}

/// Splits the text on each occurrence of the block terminator keyword.
#[verifier::loop_isolation(false)]
pub fn split_end(v: &Vec<char>) -> (r: Vec<Vec<char>>)
    ensures
        Seq::new(r@.len(), |i: int| r@[i]@) == spec_split_end(v@),
    decreases v@.len(),
{
    let n = v.len();
    let mut j: usize = 0;
    while j < n && !(n - j >= 3 && v[j] == 'e' && v[j + 1] == 'n' && v[j + 2] == 'd')
        invariant
            j <= n,
            n == v@.len(),
            forall|m: int| 0 <= m < j ==> !has_end_at(v@, m),
        decreases n - j,
    {
        j += 1;
    }
    if j == n {
        proof {
            assert forall|i: int| !has_end_at(v@, i) by {
                if has_end_at(v@, i) {
                    assert(i >= j);
                    assert(i + 3 <= n);
                }
            }
            lemma_find_end_char(v@, -1);
        }
        let mut chunk: Vec<char> = Vec::new();
        let mut i: usize = 0;
        while i < n
            invariant
                i <= n,
                chunk@ == v@.take(i as int),
            decreases n - i,
        {
            chunk.push(v[i]);
            proof {
                assert(chunk@ =~= v@.take(i + 1));
            }
            i += 1;
        }
        let mut out: Vec<Vec<char>> = Vec::new();
        out.push(chunk);
        proof {
            assert(v@.take(n as int) =~= v@);
            assert(Seq::new(out@.len(), |i: int| out@[i]@) =~= spec_split_end(v@));
        }
        return out;
    }
    proof {
        assert(has_end_at(v@, j as int));
        lemma_find_end_char(v@, j as int);
    }
    let mut chunk: Vec<char> = Vec::new();
    let mut i: usize = 0;
    while i < j
        invariant
            i <= j,
            j + 3 <= n,
            n == v@.len(),
            chunk@ == v@.take(i as int),
        decreases j - i,
    {
        chunk.push(v[i]);
        proof {
            assert(chunk@ =~= v@.take(i + 1));
        }
        i += 1;
    }
    let mut tail: Vec<char> = Vec::new();
    let mut i2: usize = j + 3;
    while i2 < n
        invariant
            j + 3 <= i2 <= n,
            n == v@.len(),
            tail@ == v@.subrange(j + 3, i2 as int),
        decreases n - i2,
    {
        tail.push(v[i2]);
        proof {
            assert(tail@ =~= v@.subrange(j + 3, i2 + 1));
        }
        i2 += 1;
    }
    proof {
        assert(tail@ == v@.skip(j + 3));
    }
    let mut rest = split_end(&tail);
    let mut out: Vec<Vec<char>> = Vec::new();
    out.push(chunk);
    let ghost resto = rest@;
    out.append(&mut rest);
    proof {
        assert(Seq::new(out@.len(), |i: int| out@[i]@) =~= seq![v@.take(j as int)] + Seq::new(
            resto.len(),
            |i: int| resto[i]@,
        ));
    }
    out
}

/// The length of the word at the head of `s`: the number of characters
/// before the first separator.
pub open spec fn word_len(s: Seq<char>) -> nat
    decreases s.len(),
{
    if s.len() == 0 || is_space(s[0]) {
        0
    } else {
        1 + word_len(s.drop_first())
    }
}

/// `word_len` is the position of the first separator.
proof fn lemma_word_len_char(s: Seq<char>, n: int)
    requires
        0 <= n <= s.len(),
        forall|m: int| 0 <= m < n ==> !is_space(s[m]),
        n == s.len() || is_space(s[n]),
    ensures
        word_len(s) == n,
    decreases s.len(),
{
    if n > 0 {
        lemma_word_len_char(s.drop_first(), n - 1);
    }
}

/// The whitespace-separated words of the text, in order.
pub open spec fn spec_words(s: Seq<char>) -> Seq<Seq<char>>
    decreases s.len(),
    via spec_words_decreases
{
    if s.len() == 0 {
        Seq::empty()
    } else if is_space(s[0]) {
        spec_words(s.drop_first())
    } else {
        let w = word_len(s) as int;
        seq![s.take(w)] + spec_words(s.skip(w))
    }
}

/// The word at the head of the text is no longer than the text.
proof fn lemma_word_len_bound(s: Seq<char>)
    ensures
        word_len(s) <= s.len(),
    decreases s.len(),
{
    if s.len() > 0 && !is_space(s[0]) {
        lemma_word_len_bound(s.drop_first());
    }
}

#[via_fn]
proof fn spec_words_decreases(s: Seq<char>) {
    lemma_word_len_bound(s);
}

/// Words are unaffected by where the suffix under consideration begins, as
/// long as it begins at a separator.
proof fn lemma_words_skip_space(s: Seq<char>, i: int)
    requires
        0 <= i < s.len(),
        is_space(s[i]),
    ensures
        spec_words(s.skip(i)) == spec_words(s.skip(i + 1)),
{
    assert(s.skip(i).drop_first() =~= s.skip(i + 1));
}

/// The views of a word vector.
pub open spec fn view_strings(ss: Seq<String>) -> Seq<Seq<char>> {
    Seq::new(ss.len(), |i: int| ss[i]@)
}

/// Splits the characters into whitespace-separated words.
pub fn split_words(v: &Vec<char>) -> (r: Vec<String>)
    ensures
        view_strings(r@) == spec_words(v@),
{
    let mut out: Vec<String> = Vec::new();
    words_into(v, 0, &mut out);
    proof {
        assert(v@.skip(0) =~= v@);
    }
    out
}

/// Whether a character separates words.
fn is_space_exec(c: char) -> (r: bool)
    ensures
        r == is_space(c),
{
    c == ' ' || c == '\t' || c == '\r' || c == '\n'
}

/// Appends the words of `v` from position `i` on to `out`.
#[verifier::loop_isolation(false)]
fn words_into(v: &Vec<char>, i: usize, out: &mut Vec<String>)
    requires
        i <= v@.len(),
    ensures
        view_strings(final(out)@) == view_strings(old(out)@) + spec_words(v@.skip(i as int)),
    decreases v@.len() - i,
{
    if i == v.len() {
        proof {
            assert(v@.skip(i as int) =~= Seq::<char>::empty());
            assert(view_strings(out@) =~= view_strings(out@) + spec_words(v@.skip(i as int)));
        }
        return ;
    }
    if is_space_exec(v[i]) {
        proof {
            lemma_words_skip_space(v@, i as int);
        }
        words_into(v, i + 1, out);
        return ;
    }
    let mut j: usize = i;
    while j < v.len() && !is_space_exec(v[j])
        invariant
            i <= j <= v@.len(),
            forall|m: int| i <= m < j ==> !is_space(v@[m]),
        decreases v@.len() - j,
    {
        j += 1;
    }
    proof {
        let sfx = v@.skip(i as int);
        assert forall|m: int| 0 <= m < j - i implies !is_space(sfx[m]) by {
            assert(sfx[m] == v@[i + m]);
        }
        if j < v@.len() {
            assert(sfx[j - i] == v@[j as int]);
        }
        lemma_word_len_char(sfx, j - i);
        assert(sfx.take(j - i) =~= v@.subrange(i as int, j as int));
        assert(sfx.skip(j - i) =~= v@.skip(j as int));
    }
    let word = chars_to_string(v, i, j);
    let ghost mid = out@;
    out.push(word);
    proof {
        assert(view_strings(out@) =~= view_strings(mid) + seq![v@.subrange(i as int, j as int)]);
    }
    words_into(v, j, out);
    proof {
        assert(view_strings(mid) + (seq![v@.subrange(i as int, j as int)] + spec_words(
            v@.skip(j as int),
        )) =~= (view_strings(mid) + seq![v@.subrange(i as int, j as int)]) + spec_words(
            v@.skip(j as int),
        ));
    }
}

} // verus!
