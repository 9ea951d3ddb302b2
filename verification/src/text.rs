//! Text handling on the level of characters: classes of white space, trimming,
//! splitting into words and lines, joining, and upper case for ASCII letters.
//!
//! A string is seen as its sequence of characters (`s@`). The functions here
//! scan a `Vec<char>` by index and build every `String` they return one
//! character at a time.

use vstd::prelude::*;

verus! {

/// `String::push` of the standard library: the string afterwards is the string
/// before with `c` added at its end.
pub assume_specification[ std::string::String::push ](s: &mut std::string::String, c: char)
    ensures
        final(s)@ == old(s)@.push(c),
;

/// `==` between two `str` of the standard library: true exactly when both hold
/// the same characters in the same order.
pub assume_specification[ <str as PartialEq>::eq ](a: &str, b: &str) -> (r: bool)
    ensures
        r == (a@ == b@),
;

/// The characters with the Unicode property `White_Space`.
pub open spec fn is_whitespace(c: char) -> bool {
    let n: u32 = c as u32;
    ||| 0x09 <= n <= 0x0D
    ||| n == 0x20
    ||| n == 0x85
    ||| n == 0xA0
    ||| n == 0x1680
    ||| 0x2000 <= n <= 0x200A
    ||| n == 0x2028
    ||| n == 0x2029
    ||| n == 0x202F
    ||| n == 0x205F
    ||| n == 0x3000
}

/// ASCII white space: space, tab, line feed, form feed, carriage return.
pub open spec fn is_ascii_space(c: char) -> bool {
    let n: u32 = c as u32;
    n == 0x20 || n == 0x09 || n == 0x0A || n == 0x0C || n == 0x0D
}

/// `c` with an ASCII lower-case letter replaced by its upper-case letter.
pub open spec fn upper(c: char) -> char {
    let n: u32 = c as u32;
    if 0x61 <= n <= 0x7A {
        ((n - 0x20) as u8) as char
    } else {
        c
    }
}

/// `s` with every ASCII lower-case letter replaced by its upper-case letter.
pub open spec fn to_upper(s: Seq<char>) -> Seq<char> {
    Seq::new(s.len(), |i: int| upper(s[i]))
}

/// True when every character of `s` is white space (so also for the empty text).
pub open spec fn is_blank(s: Seq<char>) -> bool {
    forall|i: int| 0 <= i < s.len() ==> is_whitespace(#[trigger] s[i])
}

/// `s` without the white space at its start.
pub open spec fn trim_start(s: Seq<char>) -> Seq<char>
    decreases s.len(),
{
    if s.len() > 0 && is_whitespace(s.first()) {
        trim_start(s.drop_first())
    } else {
        s
    }
}

/// `s` without the white space at its end.
pub open spec fn trim_end(s: Seq<char>) -> Seq<char>
    decreases s.len(),
{
    if s.len() > 0 && is_whitespace(s.last()) {
        trim_end(s.drop_last())
    } else {
        s
    }
}

/// `s` without the white space at its start and at its end.
pub open spec fn trim(s: Seq<char>) -> Seq<char> {
    trim_end(trim_start(s))
}

/// The length of the longest prefix of `s` that holds no ASCII white space.
pub open spec fn word_len(s: Seq<char>) -> nat
    decreases s.len(),
{
    if s.len() > 0 && !is_ascii_space(s.first()) {
        1 + word_len(s.drop_first())
    } else {
        0
    }
}

/// The words of `s`: its maximal runs of characters that are not ASCII white
/// space, from left to right.
pub open spec fn tokens(s: Seq<char>) -> Seq<Seq<char>>
    decreases s.len(),
{
    if s.len() == 0 {
        Seq::empty()
    } else if is_ascii_space(s.first()) {
        tokens(s.drop_first())
    } else {
        proof {
            lemma_word_len(s);
        }
        let n: nat = word_len(s);
        seq![s.take(n as int)] + tokens(s.skip(n as int))
    }
}

/// The texts of `parts`, each two neighbours separated by one space.
pub open spec fn join(parts: Seq<Seq<char>>) -> Seq<char>
    decreases parts.len(),
{
    if parts.len() == 0 {
        Seq::empty()
    } else if parts.len() == 1 {
        parts[0]
    } else {
        join(parts.drop_last()) + seq![' '] + parts.last()
    }
}

/// The length of the longest prefix of `s` that holds no line feed.
pub open spec fn line_len(s: Seq<char>) -> nat
    decreases s.len(),
{
    if s.len() > 0 && s.first() != '\n' {
        1 + line_len(s.drop_first())
    } else {
        0
    }
}

/// `l` without one carriage return at its end.
pub open spec fn chomp(l: Seq<char>) -> Seq<char> {
    if l.len() > 0 && l.last() == '\r' {
        l.drop_last()
    } else {
        l
    }
}

/// The lines of `s`. A line ends with a line feed, or with a carriage return
/// and a line feed, and holds neither; what follows the last line feed is a
/// line too, as it stands, unless it is empty.
pub open spec fn lines(s: Seq<char>) -> Seq<Seq<char>>
    decreases s.len(),
{
    if s.len() == 0 {
        Seq::empty()
    } else {
        proof {
            lemma_line_len(s);
        }
        let n: nat = line_len(s);
        if n < s.len() {
            seq![chomp(s.take(n as int))] + lines(s.skip(n as int + 1))
        } else {
            seq![s]
        }
    }
}

/// What `word_len` counts: characters that are not ASCII white space, up to
/// the first that is, or to the end.
pub proof fn lemma_word_len(s: Seq<char>)
    ensures
        word_len(s) <= s.len(),
        forall|i: int| 0 <= i < word_len(s) ==> !is_ascii_space(#[trigger] s[i]),
        word_len(s) < s.len() ==> is_ascii_space(s[word_len(s) as int]),
        s.len() > 0 && !is_ascii_space(s.first()) ==> word_len(s) >= 1,
    decreases s.len(),
{
    if s.len() > 0 && !is_ascii_space(s.first()) {
        let t = s.drop_first();
        lemma_word_len(t);
        assert forall|i: int| 0 <= i < word_len(s) implies !is_ascii_space(#[trigger] s[i]) by {
            if i > 0 {
                assert(s[i] == t[i - 1]);
            }
        }
        if word_len(s) < s.len() {
            assert(s[word_len(s) as int] == t[word_len(t) as int]);
        }
    }
}

/// `word_len` is fixed by what it counts.
pub proof fn lemma_word_len_is(s: Seq<char>, n: nat)
    requires
        n <= s.len(),
        forall|i: int| 0 <= i < n ==> !is_ascii_space(#[trigger] s[i]),
        n < s.len() ==> is_ascii_space(s[n as int]),
    ensures
        word_len(s) == n,
    decreases n,
{
    if n > 0 {
        let t = s.drop_first();
        assert(!is_ascii_space(s[0]));
        assert forall|i: int| 0 <= i < n - 1 implies !is_ascii_space(#[trigger] t[i]) by {
            assert(t[i] == s[i + 1]);
        }
        lemma_word_len_is(t, (n - 1) as nat);
    }
}

/// What `line_len` counts: characters that are no line feed, up to the first
/// line feed, or to the end.
pub proof fn lemma_line_len(s: Seq<char>)
    ensures
        line_len(s) <= s.len(),
        forall|i: int| 0 <= i < line_len(s) ==> #[trigger] s[i] != '\n',
        line_len(s) < s.len() ==> s[line_len(s) as int] == '\n',
    decreases s.len(),
{
    if s.len() > 0 && s.first() != '\n' {
        let t = s.drop_first();
        lemma_line_len(t);
        assert forall|i: int| 0 <= i < line_len(s) implies #[trigger] s[i] != '\n' by {
            if i > 0 {
                assert(s[i] == t[i - 1]);
            }
        }
        if line_len(s) < s.len() {
            assert(s[line_len(s) as int] == t[line_len(t) as int]);
        }
    }
}

/// `line_len` is fixed by what it counts.
pub proof fn lemma_line_len_is(s: Seq<char>, n: nat)
    requires
        n <= s.len(),
        forall|i: int| 0 <= i < n ==> #[trigger] s[i] != '\n',
        n < s.len() ==> s[n as int] == '\n',
    ensures
        line_len(s) == n,
    decreases n,
{
    if n > 0 {
        let t = s.drop_first();
        assert(s[0] != '\n');
        assert forall|i: int| 0 <= i < n - 1 implies #[trigger] t[i] != '\n' by {
            assert(t[i] == s[i + 1]);
        }
        lemma_line_len_is(t, (n - 1) as nat);
    }
}

/// True when `w` is not empty and holds no ASCII white space.
pub open spec fn is_word(w: Seq<char>) -> bool {
    w.len() > 0 && forall|i: int| 0 <= i < w.len() ==> !is_ascii_space(#[trigger] w[i])
}

/// Every one of the words of a text is a word.
pub proof fn lemma_tokens_are_words(s: Seq<char>)
    ensures
        forall|k: int| 0 <= k < tokens(s).len() ==> is_word(#[trigger] tokens(s)[k]),
    decreases s.len(),
{
    if s.len() == 0 {
        assert(tokens(s).len() == 0);
    } else if is_ascii_space(s.first()) {
        lemma_tokens_are_words(s.drop_first());
        assert(tokens(s) == tokens(s.drop_first()));
    } else {
        lemma_word_len(s);
        let n: nat = word_len(s);
        let head = s.take(n as int);
        let rest = tokens(s.skip(n as int));
        lemma_tokens_are_words(s.skip(n as int));
        assert(tokens(s) == seq![head] + rest);
        assert(is_word(head)) by {
            assert forall|i: int| 0 <= i < head.len() implies !is_ascii_space(
                #[trigger] head[i],
            ) by {
                assert(head[i] == s[i]);
            }
        }
        assert forall|k: int| 0 <= k < tokens(s).len() implies is_word(
            #[trigger] tokens(s)[k],
        ) by {
            if k > 0 {
                assert(tokens(s)[k] == rest[k - 1]);
            }
        }
    }
}

/// A text that does not start with white space has a first word.
pub proof fn lemma_tokens_nonempty(s: Seq<char>)
    requires
        s.len() > 0,
        !is_whitespace(s.first()),
    ensures
        tokens(s).len() > 0,
{
    assert(!is_ascii_space(s.first()));
}

/// What is left of a trimmed text neither starts nor ends with white space.
pub proof fn lemma_trim_edges(s: Seq<char>)
    ensures
        trim(s).len() > 0 ==> !is_whitespace(trim(s).first()) && !is_whitespace(trim(s).last()),
{
    lemma_trim_start_edge(s);
    lemma_trim_end_edge(trim_start(s));
}

/// A text trimmed at its start does not start with white space.
pub proof fn lemma_trim_start_edge(s: Seq<char>)
    ensures
        trim_start(s).len() > 0 ==> !is_whitespace(trim_start(s).first()),
    decreases s.len(),
{
    if s.len() > 0 && is_whitespace(s.first()) {
        lemma_trim_start_edge(s.drop_first());
    }
}

/// A text trimmed at its end does not end with white space, and starts as it
/// did if anything is left of it.
pub proof fn lemma_trim_end_edge(s: Seq<char>)
    ensures
        trim_end(s).len() > 0 ==> !is_whitespace(trim_end(s).last()) && trim_end(s).first()
            == s.first(),
    decreases s.len(),
{
    if s.len() > 0 && is_whitespace(s.last()) {
        lemma_trim_end_edge(s.drop_last());
    }
}

/// A line has a first word exactly when something is left of it after
/// trimming.
pub proof fn lemma_words_of_trimmed(s: Seq<char>)
    ensures
        tokens(trim(s)).len() == 0 <==> trim(s).len() == 0,
{
    lemma_trim_edges(s);
    if trim(s).len() > 0 {
        lemma_tokens_nonempty(trim(s));
    }
}

/// True when `c` is white space.
pub fn char_is_whitespace(c: char) -> (r: bool)
    ensures
        r == is_whitespace(c),
{
    let n: u32 = c as u32;
    (0x09 <= n && n <= 0x0D) || n == 0x20 || n == 0x85 || n == 0xA0 || n == 0x1680 || (0x2000 <= n
        && n <= 0x200A) || n == 0x2028 || n == 0x2029 || n == 0x202F || n == 0x205F || n == 0x3000
}

/// True when `c` is ASCII white space.
pub fn char_is_ascii_space(c: char) -> (r: bool)
    ensures
        r == is_ascii_space(c),
{
    let n: u32 = c as u32;
    n == 0x20 || n == 0x09 || n == 0x0A || n == 0x0C || n == 0x0D
}

/// The upper-case letter of an ASCII lower-case letter; any other character
/// as it is.
pub fn char_upper(c: char) -> (r: char)
    ensures
        r == upper(c),
{
    let n: u32 = c as u32;
    if 0x61 <= n && n <= 0x7A {
        let b: u8 = (n - 0x20) as u8;
        b as char
    } else {
        c
    }
}

/// The characters of `s`.
pub fn chars_of(s: &str) -> (v: Vec<char>)
    ensures
        v@ == s@,
{
    let mut v: Vec<char> = Vec::new();
    for c in it: s.chars()
        invariant
            v@ == it.seq().take(it.index()),
            it.seq() == s@,
    {
        v.push(c);
    }
    v
}

/// The text made of the characters `v[from..to]`.
pub fn text_of(v: &Vec<char>, from: usize, to: usize) -> (s: String)
    requires
        from <= to <= v.len(),
    ensures
        s@ == v@.subrange(from as int, to as int),
{
    let mut s = String::new();
    let mut i: usize = from;
    while i < to
        invariant
            from <= i <= to <= v.len(),
            s@ == v@.subrange(from as int, i as int),
        decreases to - i,
    {
        s.push(v[i]);
        i += 1;
        proof {
            assert(v@.subrange(from as int, i as int) == v@.subrange(from as int, i - 1).push(
                v@[i - 1],
            ));
        }
    }
    s
}

/// True when `a` and `b` hold the same text.
pub fn same_text(a: &str, b: &str) -> (r: bool)
    ensures
        r == (a@ == b@),
{
    *a == *b
}

/// True when `s` starts with the characters of `prefix`.
pub fn starts_with(s: &str, prefix: &Vec<char>) -> (r: bool)
    ensures
        r == prefix@.is_prefix_of(s@),
{
    let mut matched: usize = 0;
    let mut differs = false;
    for c in it: s.chars()
        invariant
            it.seq() == s@,
            matched <= prefix.len(),
            matched <= it.index(),
            !differs ==> (matched == it.index() || matched == prefix.len()),
            !differs ==> prefix@.take(matched as int) == s@.take(matched as int),
            differs ==> matched < prefix.len() && matched < s@.len() && prefix@[matched as int]
                != s@[matched as int],
    {
        if !differs && matched < prefix.len() {
            if prefix[matched] == c {
                proof {
                    let m = matched as int;
                    assert(prefix@.take(m + 1) == prefix@.take(m).push(prefix@[m]));
                    assert(s@.take(m + 1) == s@.take(m).push(s@[m]));
                }
                matched += 1;
            } else {
                differs = true;
            }
        }
    }
    proof {
        let m = matched as int;
        if differs {
            if prefix@.is_prefix_of(s@) {
                assert(prefix@[m] == s@.subrange(0, prefix@.len() as int)[m]);
            }
        } else if matched == prefix.len() {
            assert(prefix@.take(m) == prefix@);
            assert(s@.take(m) == s@.subrange(0, m));
        }
    }
    !differs && matched == prefix.len()
}

/// `s` in upper case, as far as its ASCII letters go.
pub fn ascii_upper(s: &str) -> (r: String)
    ensures
        r@ == to_upper(s@),
{
    let mut r = String::new();
    for c in it: s.chars()
        invariant
            it.seq() == s@,
            r@ == to_upper(s@.take(it.index())),
    {
        let ghost before = r@;
        r.push(char_upper(c));
        proof {
            let i = it.index();
            assert(s@.take(i + 1) == s@.take(i).push(s@[i]));
            assert(to_upper(s@.take(i + 1)) =~= before.push(upper(s@[i])));
        }
    }
    proof {
        assert(s@.take(s@.len() as int) == s@);
    }
    r
}

/// True when `v[from..to]` holds white space only.
pub fn blank(v: &Vec<char>, from: usize, to: usize) -> (r: bool)
    requires
        from <= to <= v.len(),
    ensures
        r == is_blank(v@.subrange(from as int, to as int)),
{
    let ghost s = v@.subrange(from as int, to as int);
    let mut i: usize = from;
    while i < to
        invariant
            from <= i <= to <= v.len(),
            s == v@.subrange(from as int, to as int),
            forall|k: int| 0 <= k < i - from ==> is_whitespace(#[trigger] s[k]),
        decreases to - i,
    {
        if !char_is_whitespace(v[i]) {
            assert(!is_whitespace(s[i - from]));
            return false;
        }
        i += 1;
    }
    true
}

/// The bounds of `v` without the white space at its start and at its end:
/// `v[a..b]` is `v` trimmed.
pub fn trim_bounds(v: &Vec<char>) -> (r: (usize, usize))
    ensures
        r.0 <= r.1 <= v.len(),
        v@.subrange(r.0 as int, r.1 as int) == trim(v@),
{
    let n = v.len();
    let mut a: usize = 0;
    proof {
        assert(v@.skip(0) == v@);
    }
    while a < n && char_is_whitespace(v[a])
        invariant
            a <= n == v.len(),
            trim_start(v@) == trim_start(v@.skip(a as int)),
        decreases n - a,
    {
        proof {
            assert(v@.skip(a as int).drop_first() == v@.skip(a + 1));
        }
        a += 1;
    }
    proof {
        assert(v@.skip(n as int).len() == 0);
        assert(trim_start(v@) == v@.skip(a as int));
        assert(v@.skip(a as int) == v@.subrange(a as int, n as int));
    }
    let mut b: usize = n;
    while b > a && char_is_whitespace(v[b - 1])
        invariant
            a <= b <= n == v.len(),
            trim(v@) == trim_end(v@.subrange(a as int, b as int)),
        decreases b - a,
    {
        proof {
            assert(v@.subrange(a as int, b as int).drop_last() == v@.subrange(a as int, b - 1));
        }
        b -= 1;
    }
    (a, b)
}

/// The words of `v[from..to]`.
pub fn split_words(v: &Vec<char>, from: usize, to: usize) -> (out: Vec<String>)
    requires
        from <= to <= v.len(),
    ensures
        out.deep_view() == tokens(v@.subrange(from as int, to as int)),
{
    let mut out: Vec<String> = Vec::new();
    let mut i: usize = from;
    while i < to
        invariant
            from <= i <= to <= v.len(),
            out.deep_view() + tokens(v@.subrange(i as int, to as int)) == tokens(
                v@.subrange(from as int, to as int),
            ),
        decreases to - i,
    {
        let ghost rest = v@.subrange(i as int, to as int);
        if char_is_ascii_space(v[i]) {
            proof {
                assert(rest.drop_first() == v@.subrange(i + 1, to as int));
            }
            i += 1;
        } else {
            let mut j: usize = i + 1;
            while j < to && !char_is_ascii_space(v[j])
                invariant
                    i < j <= to <= v.len(),
                    forall|k: int| i <= k < j ==> !is_ascii_space(#[trigger] v@[k]),
                decreases to - j,
            {
                j += 1;
            }
            let word = text_of(v, i, j);
            let ghost before = out.deep_view();
            out.push(word);
            proof {
                let n = (j - i) as nat;
                assert forall|k: int| 0 <= k < n implies !is_ascii_space(#[trigger] rest[k]) by {
                    assert(rest[k] == v@[i + k]);
                }
                lemma_word_len_is(rest, n);
                assert(rest.take(n as int) == v@.subrange(i as int, j as int));
                assert(rest.skip(n as int) == v@.subrange(j as int, to as int));
                assert(out.deep_view() =~= before.push(word@));
                assert(before.push(word@) + tokens(rest.skip(n as int)) =~= before + tokens(rest));
            }
            i = j;
        }
    }
    proof {
        assert(tokens(v@.subrange(to as int, to as int)) =~= Seq::empty());
    }
    out
}

/// The texts `parts[from..to]` with one space between each two.
pub fn join_words(parts: &Vec<String>, from: usize, to: usize) -> (r: String)
    requires
        from <= to <= parts.len(),
    ensures
        r@ == join(parts.deep_view().subrange(from as int, to as int)),
{
    let mut r = String::new();
    let mut i: usize = from;
    while i < to
        invariant
            from <= i <= to <= parts.len(),
            r@ == join(parts.deep_view().subrange(from as int, i as int)),
        decreases to - i,
    {
        let ghost before = parts.deep_view().subrange(from as int, i as int);
        if i > from {
            r.push(' ');
        }
        append_text(&mut r, parts[i].as_str());
        i += 1;
        proof {
            let now = parts.deep_view().subrange(from as int, i as int);
            assert(now.drop_last() == before);
            assert(now.last() == parts[i - 1]@);
            if before.len() == 0 {
                assert(r@ =~= now[0]);
            }
        }
    }
    r
}

/// Adds the characters of `tail` at the end of `s`.
pub fn append_text(s: &mut String, tail: &str)
    ensures
        final(s)@ == old(s)@ + tail@,
{
    for c in it: tail.chars()
        invariant
            it.seq() == tail@,
            s@ == old(s)@ + tail@.take(it.index()),
    {
        s.push(c);
        proof {
            let i = it.index();
            assert(tail@.take(i + 1) == tail@.take(i).push(tail@[i]));
        }
    }
    proof {
        assert(tail@.take(tail@.len() as int) == tail@);
    }
}

/// The lines of `v` (see [`lines`]) that hold more than white space.
pub fn nonblank_lines(v: &Vec<char>) -> (out: Vec<String>)
    ensures
        out.deep_view() == lines(v@).filter(|l: Seq<char>| !is_blank(l)),
{
    let ghost keep = |l: Seq<char>| !is_blank(l);
    let n = v.len();
    let mut out: Vec<String> = Vec::new();
    let mut i: usize = 0;
    proof {
        assert(v@.skip(0) == v@);
        assert(out.deep_view() + lines(v@).filter(keep) =~= lines(v@).filter(keep));
    }
    while i < n
        invariant
            i <= n == v.len(),
            out.deep_view() + lines(v@.skip(i as int)).filter(keep) == lines(v@).filter(keep),
            keep == |l: Seq<char>| !is_blank(l),
        decreases n - i,
    {
        let ghost rest = v@.skip(i as int);
        let mut j: usize = i;
        while j < n && v[j] != '\n'
            invariant
                i <= j <= n == v.len(),
                forall|k: int| i <= k < j ==> #[trigger] v@[k] != '\n',
            decreases n - j,
        {
            j += 1;
        }
        proof {
            let m = (j - i) as nat;
            assert forall|k: int| 0 <= k < m implies #[trigger] rest[k] != '\n' by {
                assert(rest[k] == v@[i + k]);
            }
            lemma_line_len_is(rest, m);
            assert(rest.take(m as int) == v@.subrange(i as int, j as int));
        }
        let end: usize = if j < n && j > i && v[j - 1] == '\r' {
            j - 1
        } else {
            j
        };
        let next: usize = if j < n {
            j + 1
        } else {
            j
        };
        proof {
            let whole = v@.subrange(i as int, j as int);
            let line = v@.subrange(i as int, end as int);
            let tail = lines(v@.skip(next as int));
            if j < n {
                assert(chomp(whole) == line) by {
                    if j > i && v@[j - 1] == '\r' {
                        assert(whole.last() == v@[j - 1]);
                        assert(whole.drop_last() == line);
                    } else if whole.len() > 0 {
                        assert(whole.last() == v@[j - 1]);
                    }
                }
                assert(rest.skip((j - i) + 1) == v@.skip(next as int));
                assert(lines(rest) == seq![line] + tail);
            } else {
                assert(rest == line);
                assert(tail =~= Seq::empty());
                assert(lines(rest) =~= seq![line] + tail);
            }
            lemma_filter_cons(line, tail, keep);
        }
        if !blank(v, i, end) {
            let line = text_of(v, i, end);
            let ghost before = out.deep_view();
            out.push(line);
            proof {
                assert(out.deep_view() =~= before.push(line@));
                assert(before.push(line@) + lines(v@.skip(next as int)).filter(keep) =~= before + (
                seq![line@] + lines(v@.skip(next as int)).filter(keep)));
            }
        }
        i = next;
    }
    proof {
        assert(lines(v@.skip(n as int)) =~= Seq::empty());
    }
    out
}

/// `filter` of a sequence with one more item in front.
pub proof fn lemma_filter_cons<A>(head: A, tail: Seq<A>, keep: spec_fn(A) -> bool)
    ensures
        (seq![head] + tail).filter(keep) == if keep(head) {
            seq![head] + tail.filter(keep)
        } else {
            tail.filter(keep)
        },
    decreases tail.len(),
{
    let whole = seq![head] + tail;
    reveal_with_fuel(Seq::filter, 2);
    if tail.len() == 0 {
        assert(whole.drop_last() =~= Seq::empty());
        assert(whole.filter(keep) =~= if keep(head) {
            seq![head]
        } else {
            Seq::empty()
        });
        assert(tail.filter(keep) =~= Seq::empty());
    } else {
        assert(whole.drop_last() =~= seq![head] + tail.drop_last());
        assert(whole.last() == tail.last());
        lemma_filter_cons(head, tail.drop_last(), keep);
        assert(whole.filter(keep) =~= if keep(head) {
            seq![head] + tail.filter(keep)
        } else {
            tail.filter(keep)
        });
    }
}

} // verus!
