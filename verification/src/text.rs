//! Character-level text helpers shared by the diff, overlay and attribution code.
use vstd::prelude::*;

verus! {

/// The characters of each string of a sequence.
pub open spec fn lines_view(v: Seq<String>) -> Seq<Seq<char>> {
    v.map_values(|s: String| s@)
}

/// The pieces of `s` between `'\n'` characters, exactly as `str::split('\n')` yields them:
/// the empty text gives one empty piece and a final newline gives a final empty piece.
pub open spec fn split_nl(s: Seq<char>) -> Seq<Seq<char>>
    decreases s.len(),
{
    if s.len() == 0 {
        seq![Seq::<char>::empty()]
    } else {
        let prev = split_nl(s.drop_last());
        if s.last() == '\n' {
            prev.push(Seq::<char>::empty())
        } else {
            prev.update(prev.len() - 1, prev.last().push(s.last()))
        }
    }
}

/// `s` without one final `'\n'`, if it ends with one.
pub open spec fn strip_final_nl(s: Seq<char>) -> Seq<char> {
    if s.len() > 0 && s.last() == '\n' {
        s.drop_last()
    } else {
        s
    }
}

/// The lines of a text: none for the empty text, otherwise the pieces between newlines,
/// where a single final newline terminates the last line instead of opening a new one.
pub open spec fn text_lines(s: Seq<char>) -> Seq<Seq<char>> {
    if s.len() == 0 {
        Seq::empty()
    } else {
        split_nl(strip_final_nl(s))
    }
}

/// Joins pieces with `'\n'` between consecutive pieces.
pub open spec fn join_nl(pieces: Seq<Seq<char>>) -> Seq<char>
    decreases pieces.len(),
{
    if pieces.len() == 0 {
        Seq::empty()
    } else if pieces.len() == 1 {
        pieces[0]
    } else {
        join_nl(pieces.drop_last()) + seq!['\n'] + pieces.last()
    }
}

/// Splitting at line breaks always gives at least one piece.
pub proof fn lemma_split_nl_nonempty(s: Seq<char>)
    ensures
        split_nl(s).len() >= 1,
    decreases s.len(),
{
    if s.len() > 0 {
        lemma_split_nl_nonempty(s.drop_last());
    }
}

/// The number of `'\n'` characters of `s`.
pub open spec fn count_newlines(s: Seq<char>) -> nat
    decreases s.len(),
{
    if s.len() == 0 {
        0
    } else {
        count_newlines(s.drop_last()) + if s.last() == '\n' {
            1nat
        } else {
            0nat
        }
    }
}

/// Splitting at line breaks gives one piece more than there are line breaks.
pub proof fn lemma_split_nl_count(s: Seq<char>)
    ensures
        split_nl(s).len() == count_newlines(s) + 1,
    decreases s.len(),
{
    if s.len() > 0 {
        lemma_split_nl_count(s.drop_last());
        lemma_split_nl_nonempty(s.drop_last());
    }
}

/// Splitting on newlines loses nothing: no piece holds a newline, and joining the pieces
/// with newlines gives the text back.
pub proof fn lemma_split_nl_join(s: Seq<char>)
    ensures
        join_nl(split_nl(s)) == s,
        forall|i: int, j: int|
            0 <= i < split_nl(s).len() && 0 <= j < split_nl(s)[i].len() ==> split_nl(s)[i][j]
                != '\n',
    decreases s.len(),
{
    lemma_split_nl_nonempty(s);
    if s.len() > 0 {
        let t = s.drop_last();
        lemma_split_nl_join(t);
        lemma_split_nl_nonempty(t);
        let prev = split_nl(t);
        if s.last() == '\n' {
            assert(split_nl(s).drop_last() =~= prev);
            assert(join_nl(split_nl(s)) =~= join_nl(prev) + seq!['\n'] + Seq::<char>::empty());
            assert(s =~= t + seq!['\n']);
        } else {
            let cur = prev.last().push(s.last());
            let next = prev.update(prev.len() - 1, cur);
            if prev.len() == 1 {
                assert(join_nl(next) == cur);
                assert(join_nl(prev) == prev[0]);
                assert(s =~= t.push(s.last()));
            } else {
                assert(next.drop_last() =~= prev.drop_last());
                assert(join_nl(next) == join_nl(prev.drop_last()) + seq!['\n'] + cur);
                assert(join_nl(prev) == join_nl(prev.drop_last()) + seq!['\n'] + prev.last());
                assert(join_nl(next) =~= join_nl(prev).push(s.last()));
                assert(s =~= t.push(s.last()));
            }
            assert forall|i: int, j: int|
                0 <= i < next.len() && 0 <= j < next[i].len() implies next[i][j] != '\n' by {
                if i == next.len() - 1 && j == next[i].len() - 1 {
                } else if i == next.len() - 1 {
                    assert(next[i][j] == prev[i][j]);
                }
            }
        }
    }
}

/// Appends one character to a string.
#[verifier::external_body]
pub fn push_char(s: &mut String, c: char)
    ensures
        final(s)@ == old(s)@.push(c),
{
    s.push(c);
}

/// The characters of a string slice, in order.
pub fn chars_of(s: &str) -> (v: Vec<char>)
    ensures
        v@ == s@,
{
    broadcast use vstd::string::group_string_axioms;

    let mut out: Vec<char> = Vec::new();
    for c in it: s.chars()
        invariant
            out@ == it.seq().take(it.index() as int),
    {
        out.push(c);
    }
    out
}

/// A new string holding `chars[lo..hi]`.
pub fn string_from_chars(chars: &Vec<char>, lo: usize, hi: usize) -> (s: String)
    requires
        lo <= hi <= chars.len(),
    ensures
        s@ == chars@.subrange(lo as int, hi as int),
{
    let mut s = String::new();
    let mut i = lo;
    while i < hi
        invariant
            lo <= i <= hi <= chars.len(),
            s@ == chars@.subrange(lo as int, i as int),
        decreases hi - i,
    {
        push_char(&mut s, chars[i]);
        assert(chars@.subrange(lo as int, i + 1) =~= chars@.subrange(lo as int, i as int).push(
            chars@[i as int],
        ));
        i += 1;
    }
    s
}

/// The pieces of `chars[..len]` between newlines.
pub fn split_chars_on_newline(chars: &Vec<char>, len: usize) -> (out: Vec<String>)
    requires
        len <= chars.len(),
    ensures
        lines_view(out@) == split_nl(chars@.take(len as int)),
{
    let mut out: Vec<String> = Vec::new();
    let mut start: usize = 0;
    let mut i: usize = 0;
    assert(chars@.take(0) =~= Seq::<char>::empty());
    assert(lines_view(out@).push(chars@.subrange(0, 0)) =~= seq![Seq::<char>::empty()]);
    while i < len
        invariant
            len <= chars.len(),
            start <= i <= len,
            lines_view(out@).push(chars@.subrange(start as int, i as int)) == split_nl(
                chars@.take(i as int),
            ),
        decreases len - i,
    {
        let ghost before = lines_view(out@);
        let ghost cur = chars@.subrange(start as int, i as int);
        let ghost prev = split_nl(chars@.take(i as int));
        assert(chars@.take(i + 1).drop_last() =~= chars@.take(i as int));
        assert(chars@.take(i + 1).last() == chars@[i as int]);
        if chars[i] == '\n' {
            let piece = string_from_chars(chars, start, i);
            out.push(piece);
            start = i + 1;
            assert(lines_view(out@) =~= before.push(cur));
            assert(chars@.subrange(start as int, i + 1) =~= Seq::<char>::empty());
            assert(split_nl(chars@.take(i + 1)) == prev.push(Seq::<char>::empty()));
        } else {
            assert(prev.len() == before.len() + 1);
            assert(chars@.subrange(start as int, i + 1) =~= cur.push(chars@[i as int]));
            assert(before.push(cur.push(chars@[i as int])) =~= prev.update(
                prev.len() - 1,
                prev.last().push(chars@[i as int]),
            ));
        }
        i += 1;
    }
    assert(lines_view(out@).push(chars@.subrange(start as int, len as int)).drop_last()
        =~= lines_view(out@));
    let last = string_from_chars(chars, start, len);
    out.push(last);
    assert(lines_view(out@) =~= lines_view(out@).drop_last().push(last@));
    out
}

/// The lines of a text, as `text_lines` defines them.
pub fn text_lines_of(text: &str) -> (lines: Vec<String>)
    ensures
        lines_view(lines@) == text_lines(text@),
{
    let chars = chars_of(text);
    if chars.len() == 0 {
        let v: Vec<String> = Vec::new();
        assert(lines_view(v@) =~= Seq::<Seq<char>>::empty());
        return v;
    }
    let len = if chars[chars.len() - 1] == '\n' {
        chars.len() - 1
    } else {
        chars.len()
    };
    assert(chars@.take(len as int) =~= strip_final_nl(text@));
    split_chars_on_newline(&chars, len)
}

/// Whether two character sequences are equal.
pub fn str_eq(a: &str, b: &str) -> (r: bool)
    ensures
        r == (a@ == b@),
{
    let x = chars_of(a);
    let y = chars_of(b);
    if x.len() != y.len() {
        return false;
    }
    let mut i: usize = 0;
    while i < x.len()
        invariant
            x@ == a@,
            y@ == b@,
            x.len() == y.len(),
            i <= x.len(),
            forall|k: int| 0 <= k < i ==> x@[k] == y@[k],
        decreases x.len() - i,
    {
        if x[i] != y[i] {
            return false;
        }
        i += 1;
    }
    assert(x@ =~= y@);
    true
}

} // verus!

verus! {

/// Whether `c` has the Unicode `White_Space` property, which is what `char::is_whitespace` tests.
pub open spec fn is_whitespace_spec(c: char) -> bool {
    ||| ('\u{9}' <= c <= '\u{d}')
    ||| c == ' '
    ||| c == '\u{85}'
    ||| c == '\u{a0}'
    ||| c == '\u{1680}'
    ||| ('\u{2000}' <= c <= '\u{200a}')
    ||| c == '\u{2028}'
    ||| c == '\u{2029}'
    ||| c == '\u{202f}'
    ||| c == '\u{205f}'
    ||| c == '\u{3000}'
}

/// Whether `c` is a Unicode white-space character.
pub fn is_whitespace(c: char) -> (r: bool)
    ensures
        r == is_whitespace_spec(c),
{
    ('\u{9}' <= c && c <= '\u{d}') || c == ' ' || c == '\u{85}' || c == '\u{a0}' || c == '\u{1680}'
        || ('\u{2000}' <= c && c <= '\u{200a}') || c == '\u{2028}' || c == '\u{2029}' || c
        == '\u{202f}' || c == '\u{205f}' || c == '\u{3000}'
}

/// Whether every character of `s` is white space, i.e. whether `s.trim()` is empty.
pub open spec fn is_blank(s: Seq<char>) -> bool {
    forall|i: int| 0 <= i < s.len() ==> is_whitespace_spec(#[trigger] s[i])
}

/// Whether `s.trim()` is empty.
pub fn blank(s: &str) -> (r: bool)
    ensures
        r == is_blank(s@),
{
    let chars = chars_of(s);
    let mut i: usize = 0;
    while i < chars.len()
        invariant
            chars@ == s@,
            i <= chars.len(),
            forall|k: int| 0 <= k < i ==> is_whitespace_spec(#[trigger] s@[k]),
        decreases chars.len() - i,
    {
        if !is_whitespace(chars[i]) {
            return false;
        }
        i += 1;
    }
    true
}

/// The decimal digit character for `d < 10`.
pub open spec fn digit_char(d: int) -> char {
    if d == 0 {
        '0'
    } else if d == 1 {
        '1'
    } else if d == 2 {
        '2'
    } else if d == 3 {
        '3'
    } else if d == 4 {
        '4'
    } else if d == 5 {
        '5'
    } else if d == 6 {
        '6'
    } else if d == 7 {
        '7'
    } else if d == 8 {
        '8'
    } else {
        '9'
    }
}

/// The decimal representation of `n`, without leading zeros.
pub open spec fn decimal(n: nat) -> Seq<char>
    decreases n,
{
    if n < 10 {
        seq![digit_char(n as int)]
    } else {
        decimal(n / 10).push(digit_char((n % 10) as int))
    }
}

fn digit(d: usize) -> (c: char)
    requires
        d < 10,
    ensures
        c == digit_char(d as int),
{
    if d == 0 {
        '0'
    } else if d == 1 {
        '1'
    } else if d == 2 {
        '2'
    } else if d == 3 {
        '3'
    } else if d == 4 {
        '4'
    } else if d == 5 {
        '5'
    } else if d == 6 {
        '6'
    } else if d == 7 {
        '7'
    } else if d == 8 {
        '8'
    } else {
        '9'
    }
}

/// Appends the decimal representation of `n` to `s`.
pub fn push_decimal(s: &mut String, n: u64)
    ensures
        final(s)@ == old(s)@ + decimal(n as nat),
    decreases n,
{
    if n < 10 {
        push_char(s, digit(n as usize));
        assert(old(s)@.push(digit_char(n as int)) =~= old(s)@ + seq![digit_char(n as int)]);
    } else {
        push_decimal(s, n / 10);
        push_char(s, digit((n % 10) as usize));
        assert(old(s)@ + decimal(n as nat) =~= old(s)@ + decimal((n / 10) as nat) + seq![
            digit_char((n % 10) as int),
        ]);
    }
}

/// `prefix` followed by `rest`.
pub fn concat(prefix: &str, rest: &str) -> (s: String)
    ensures
        s@ == prefix@ + rest@,
{
    let mut s = String::from_str(prefix);
    s.append(rest);
    s
}

} // verus!

verus! {

/// Splitting at line breaks gives at most one piece more than there are characters, and no
/// more pieces than characters when the text does not end in a line break.
pub proof fn lemma_split_nl_len(s: Seq<char>)
    ensures
        split_nl(s).len() <= s.len() + 1,
        s.len() > 0 && s.last() != '\n' ==> split_nl(s).len() <= s.len(),
    decreases s.len(),
{
    if s.len() > 0 {
        lemma_split_nl_len(s.drop_last());
        lemma_split_nl_nonempty(s.drop_last());
    }
}

/// A text has at most as many lines as characters.
pub proof fn lemma_text_lines_len(s: Seq<char>)
    ensures
        text_lines(s).len() <= s.len(),
{
    if s.len() > 0 {
        lemma_split_nl_len(strip_final_nl(s));
        if s.last() == '\n' {
            lemma_split_nl_len(s.drop_last());
        }
    }
}

} // verus!

verus! {

/// `s` without leading white space.
pub open spec fn trim_start_spec(s: Seq<char>) -> Seq<char>
    decreases s.len(),
{
    if s.len() > 0 && is_whitespace_spec(s[0]) {
        trim_start_spec(s.drop_first())
    } else {
        s
    }
}

/// `s` without trailing white space.
pub open spec fn trim_end_spec(s: Seq<char>) -> Seq<char>
    decreases s.len(),
{
    if s.len() > 0 && is_whitespace_spec(s.last()) {
        trim_end_spec(s.drop_last())
    } else {
        s
    }
}

/// `s` without leading and trailing white space, as `str::trim` gives it.
pub open spec fn trim_spec(s: Seq<char>) -> Seq<char> {
    trim_end_spec(trim_start_spec(s))
}

proof fn lemma_trim_start_skip(s: Seq<char>, i: int)
    requires
        0 <= i <= s.len(),
        forall|k: int| 0 <= k < i ==> is_whitespace_spec(#[trigger] s[k]),
    ensures
        trim_start_spec(s) == trim_start_spec(s.skip(i)),
    decreases i,
{
    if i > 0 {
        assert(s.skip(i - 1).drop_first() =~= s.skip(i));
        lemma_trim_start_skip(s, i - 1);
        assert(s.skip(i - 1)[0] == s[i - 1]);
    } else {
        assert(s.skip(0) =~= s);
    }
}

proof fn lemma_trim_end_take(s: Seq<char>, j: int)
    requires
        0 <= j <= s.len(),
        forall|k: int| j <= k < s.len() ==> is_whitespace_spec(#[trigger] s[k]),
    ensures
        trim_end_spec(s) == trim_end_spec(s.take(j)),
    decreases s.len() - j,
{
    if j < s.len() {
        assert(s.take(j + 1).drop_last() =~= s.take(j));
        lemma_trim_end_take(s, j + 1);
        assert(s.take(j + 1).last() == s[j]);
    } else {
        assert(s.take(j) =~= s);
    }
}

/// `s` without leading and trailing white space.
pub fn trim(s: &str) -> (t: String)
    ensures
        t@ == trim_spec(s@),
{
    let chars = chars_of(s);
    let mut lo: usize = 0;
    while lo < chars.len() && is_whitespace(chars[lo])
        invariant
            chars@ == s@,
            lo <= chars.len(),
            forall|k: int| 0 <= k < lo ==> is_whitespace_spec(#[trigger] chars@[k]),
        decreases chars.len() - lo,
    {
        lo += 1;
    }
    proof {
        lemma_trim_start_skip(s@, lo as int);
    }
    let ghost rest = s@.skip(lo as int);
    assert(lo < chars.len() ==> !is_whitespace_spec(rest[0]));
    assert(trim_start_spec(rest) == rest);
    let mut hi: usize = chars.len();
    while hi > lo && is_whitespace(chars[hi - 1])
        invariant
            chars@ == s@,
            lo <= hi <= chars.len(),
            rest == s@.skip(lo as int),
            forall|k: int| hi - lo <= k < rest.len() ==> is_whitespace_spec(#[trigger] rest[k]),
        decreases hi - lo,
    {
        assert(rest[hi - 1 - lo] == chars@[hi - 1]);
        hi -= 1;
    }
    proof {
        lemma_trim_end_take(rest, (hi - lo) as int);
        let r = rest.take((hi - lo) as int);
        if r.len() > 0 {
            assert(r.last() == chars@[hi - 1]);
        }
        assert(trim_end_spec(r) == r);
        assert(r =~= chars@.subrange(lo as int, hi as int));
    }
    string_from_chars(&chars, lo, hi)
}

/// What `str::to_lowercase` gives for `s`: the Unicode lowercase mapping of each character.
pub uninterp spec fn lowercase(s: Seq<char>) -> Seq<char>;

/// Lowercases with `str::to_lowercase`; the contract names the result, which depends on the
/// characters alone.
#[verifier::external_body]
pub fn to_lowercase(s: &str) -> (t: String)
    ensures
        t@ == lowercase(s@),
{
    s.to_lowercase()
}

/// `needle` occurs in `hay` starting at `i`.
pub open spec fn occurs_at(hay: Seq<char>, needle: Seq<char>, i: int) -> bool {
    0 <= i && i + needle.len() <= hay.len() && hay.subrange(i, i + needle.len()) == needle
}

/// `needle` occurs somewhere in `hay`, as `str::contains` tests.
pub open spec fn contains_spec(hay: Seq<char>, needle: Seq<char>) -> bool {
    exists|i: int| occurs_at(hay, needle, i)
}

/// Whether `needle` occurs in `hay`.
pub fn contains(hay: &str, needle: &str) -> (r: bool)
    ensures
        r == contains_spec(hay@, needle@),
{
    let h = chars_of(hay);
    let n = chars_of(needle);
    if n.len() > h.len() {
        assert forall|i: int| !occurs_at(hay@, needle@, i) by {}
        return false;
    }
    let mut i: usize = 0;
    while i <= h.len() - n.len()
        invariant
            h@ == hay@,
            n@ == needle@,
            n.len() <= h.len(),
            i <= h.len() - n.len() + 1,
            forall|k: int| 0 <= k < i ==> !occurs_at(hay@, needle@, k),
        decreases h.len() - n.len() + 1 - i,
    {
        let mut j: usize = 0;
        while j < n.len()
            invariant
                h@ == hay@,
                n@ == needle@,
                i + n.len() <= h.len(),
                j <= n.len(),
                forall|k: int| 0 <= k < j ==> h@[i + k] == n@[k],
            ensures
                j <= n.len(),
                forall|k: int| 0 <= k < j ==> h@[i + k] == n@[k],
                j < n.len() ==> h@[i + j] != n@[j as int],
            decreases n.len() - j,
        {
            if h[i + j] != n[j] {
                break;
            }
            j += 1;
        }
        if j == n.len() {
            assert(hay@.subrange(i as int, i + needle@.len()) =~= needle@);
            assert(occurs_at(hay@, needle@, i as int));
            return true;
        }
        assert(!occurs_at(hay@, needle@, i as int)) by {
            assert(hay@.subrange(i as int, i + needle@.len())[j as int] != needle@[j as int]);
        }
        i += 1;
    }
    assert forall|k: int| !occurs_at(hay@, needle@, k) by {
        if 0 <= k < i {
        }
    }
    false
}

} // verus!
