use vstd::prelude::*;
use vstd::string::StrSliceExecFns;

verus! {

/// Unicode's `White_Space` characters, which `char::is_whitespace`
/// recognises (and with it `str::trim` and `str::split_whitespace`).
pub open spec fn is_white_space(c: char) -> bool {
    let u = c as u32;
    ||| 0x09 <= u <= 0x0d
    ||| u == 0x20
    ||| u == 0x85
    ||| u == 0xa0
    ||| u == 0x1680
    ||| 0x2000 <= u <= 0x200a
    ||| u == 0x2028
    ||| u == 0x2029
    ||| u == 0x202f
    ||| u == 0x205f
    ||| u == 0x3000
}

/// The line-feed character that ends a line.
pub open spec fn is_line_feed(c: char) -> bool {
    c == '\n'
}

/// The separator of lines (`by_lines`) or of words.
pub open spec fn separator(by_lines: bool) -> spec_fn(char) -> bool {
    if by_lines {
        |c: char| is_line_feed(c)
    } else {
        |c: char| is_white_space(c)
    }
}

/// The pieces of `s` between separators, empty pieces included: a text
/// with `k` separators has `k + 1` pieces.
pub open spec fn split_by(s: Seq<char>, sep: spec_fn(char) -> bool) -> Seq<Seq<char>>
    decreases s.len(),
{
    if s.len() == 0 {
        seq![Seq::<char>::empty()]
    } else {
        let pieces = split_by(s.drop_last(), sep);
        if sep(s.last()) {
            pieces.push(Seq::<char>::empty())
        } else {
            pieces.update(pieces.len() - 1, pieces.last().push(s.last()))
        }
    }
}

/// A piece that holds at least one character.
pub open spec fn non_empty() -> spec_fn(Seq<char>) -> bool {
    |w: Seq<char>| w.len() > 0
}

/// The lines of a text, split at each line feed.
pub open spec fn lines(s: Seq<char>) -> Seq<Seq<char>> {
    split_by(s, separator(true))
}

/// The words of a text: its maximal runs of characters other than white
/// space.
pub open spec fn words(s: Seq<char>) -> Seq<Seq<char>> {
    split_by(s, separator(false)).filter(non_empty())
}

/// `s` without the colons at its end.
pub open spec fn trim_end_colons(s: Seq<char>) -> Seq<char>
    decreases s.len(),
{
    if s.len() > 0 && s.last() == ':' {
        trim_end_colons(s.drop_last())
    } else {
        s
    }
}

/// A text always has at least one piece.
pub proof fn lemma_split_has_a_piece(s: Seq<char>, sep: spec_fn(char) -> bool)
    ensures
        split_by(s, sep).len() >= 1,
    decreases s.len(),
{
    if s.len() > 0 {
        lemma_split_has_a_piece(s.drop_last(), sep);
    }
}

/// A text without separators is a single piece.
pub proof fn lemma_split_without_separator(s: Seq<char>, sep: spec_fn(char) -> bool)
    requires
        forall|i: int| 0 <= i < s.len() ==> !sep(#[trigger] s[i]),
    ensures
        split_by(s, sep) == seq![s],
    decreases s.len(),
{
    if s.len() > 0 {
        lemma_split_without_separator(s.drop_last(), sep);
        assert(s.drop_last().push(s.last()) =~= s);
        assert(split_by(s, sep) =~= seq![s]);
    } else {
        assert(s =~= Seq::<char>::empty());
    }
}

/// Law: the pieces of a text that ends at a separator (or is empty),
/// followed by more text, are its own pieces before the empty last one,
/// then the pieces of what follows.
pub proof fn lemma_split_after_separator(a: Seq<char>, b: Seq<char>, sep: spec_fn(char) -> bool)
    requires
        a.len() == 0 || sep(a.last()),
    ensures
        split_by(a + b, sep) == split_by(a, sep).drop_last() + split_by(b, sep),
    decreases b.len(),
{
    lemma_split_has_a_piece(a, sep);
    if b.len() == 0 {
        assert(a + b =~= a);
        assert(split_by(a, sep).last() =~= Seq::<char>::empty());
        assert(split_by(a, sep).drop_last() + split_by(b, sep) =~= split_by(a, sep));
    } else {
        let c = b.last();
        lemma_split_after_separator(a, b.drop_last(), sep);
        lemma_split_has_a_piece(b.drop_last(), sep);
        assert((a + b).drop_last() =~= a + b.drop_last());
        assert((a + b).last() == c);
        let p = split_by(a, sep).drop_last();
        let q = split_by(b.drop_last(), sep);
        if sep(c) {
            assert((p + q).push(Seq::<char>::empty()) =~= p + q.push(Seq::<char>::empty()));
        } else {
            assert((p + q).update((p + q).len() - 1, (p + q).last().push(c)) =~= p + q.update(
                q.len() - 1,
                q.last().push(c),
            ));
        }
    }
}

/// The texts of a list of character vectors.
pub open spec fn char_texts(v: Seq<Vec<char>>) -> Seq<Seq<char>> {
    v.map_values(|w: Vec<char>| w@)
}

/// Whether `c` is white space (as `char::is_whitespace` says).
pub fn white_space(c: char) -> (r: bool)
    ensures
        r == is_white_space(c),
{
    let u = c as u32;
    (0x09 <= u && u <= 0x0d) || u == 0x20 || u == 0x85 || u == 0xa0 || u == 0x1680 || (0x2000 <= u
        && u <= 0x200a) || u == 0x2028 || u == 0x2029 || u == 0x202f || u == 0x205f || u == 0x3000
}

fn is_separator(c: char, by_lines: bool) -> (r: bool)
    ensures
        r == separator(by_lines)(c),
{
    if by_lines {
        c == '\n'
    } else {
        white_space(c)
    }
}

/// The characters of a text.
pub fn chars_of(s: &str) -> (r: Vec<char>)
    ensures
        r@ == s@,
{
    let mut r: Vec<char> = Vec::new();
    let n = s.unicode_len();
    let mut i: usize = 0;
    while i < n
        invariant
            n == s@.len(),
            i <= n,
            r@ == s@.take(i as int),
        decreases n - i,
    {
        r.push(s.get_char(i));
        i += 1;
        assert(r@ =~= s@.take(i as int));
    }
    assert(s@.take(n as int) =~= s@);
    r
}

/// Splits `s` into lines (`by_lines`) or into pieces between white space.
pub fn split(s: &Vec<char>, by_lines: bool) -> (pieces: Vec<Vec<char>>)
    ensures
        char_texts(pieces@) == split_by(s@, separator(by_lines)),
{
    let mut done: Vec<Vec<char>> = Vec::new();
    let mut current: Vec<char> = Vec::new();
    let mut i: usize = 0;
    while i < s.len()
        invariant
            i <= s.len(),
            char_texts(done@).push(current@) == split_by(s@.take(i as int), separator(by_lines)),
        decreases s.len() - i,
    {
        let c = s[i];
        let ghost prefix = s@.take(i as int);
        let ghost old_done = done@;
        let ghost old_current = current@;
        if is_separator(c, by_lines) {
            let finished = current;
            done.push(finished);
            current = Vec::new();
        } else {
            current.push(c);
        }
        proof {
            let next = s@.take(i + 1);
            assert(next.drop_last() =~= prefix);
            assert(next.last() == c);
            assert(char_texts(done@) =~= (if separator(by_lines)(c) {
                char_texts(old_done).push(old_current)
            } else {
                char_texts(old_done)
            }));
            assert(char_texts(done@).push(current@) =~= split_by(next, separator(by_lines)));
        }
        i += 1;
    }
    assert(s@.take(s.len() as int) =~= s@);
    done.push(current);
    assert(char_texts(done@) =~= split_by(s@, separator(by_lines)));
    done
}

/// `std`'s `String::push`: appends one character.
#[verifier::external_body]
pub(crate) fn push_char(s: &mut String, c: char)
    ensures
        final(s)@ == old(s)@.push(c),
{
    s.push(c);
}

/// A string holding the characters `v`.
pub fn string_of(v: &Vec<char>) -> (s: String)
    ensures
        s@ == v@,
{
    let mut s = String::new();
    let mut i: usize = 0;
    while i < v.len()
        invariant
            i <= v.len(),
            s@ == v@.take(i as int),
        decreases v.len() - i,
    {
        push_char(&mut s, v[i]);
        i += 1;
        assert(s@ =~= v@.take(i as int));
    }
    assert(v@.take(v.len() as int) =~= v@);
    s
}

/// A copy of the characters `v`.
pub fn copy_chars(v: &Vec<char>) -> (r: Vec<char>)
    ensures
        r@ == v@,
{
    let mut r: Vec<char> = Vec::new();
    let mut i: usize = 0;
    while i < v.len()
        invariant
            i <= v.len(),
            r@ == v@.take(i as int),
        decreases v.len() - i,
    {
        r.push(v[i]);
        i += 1;
        assert(r@ =~= v@.take(i as int));
    }
    assert(v@.take(v.len() as int) =~= v@);
    r
}

/// The pieces that hold at least one character.
pub fn non_empty_pieces(pieces: &Vec<Vec<char>>) -> (r: Vec<Vec<char>>)
    ensures
        char_texts(r@) == char_texts(pieces@).filter(non_empty()),
{
    let mut r: Vec<Vec<char>> = Vec::new();
    let mut i: usize = 0;
    while i < pieces.len()
        invariant
            i <= pieces.len(),
            char_texts(r@) == char_texts(pieces@).take(i as int).filter(non_empty()),
        decreases pieces.len() - i,
    {
        if pieces[i].len() > 0 {
            r.push(copy_chars(&pieces[i]));
        }
        proof {
            let all = char_texts(pieces@);
            let next = all.take(i + 1);
            assert(next.drop_last() =~= all.take(i as int));
            assert(next.last() == pieces@[i as int]@);
            reveal(Seq::filter);
            assert(char_texts(r@) =~= next.filter(non_empty()));
        }
        i += 1;
    }
    assert(char_texts(pieces@).take(pieces.len() as int) =~= char_texts(pieces@));
    r
}

/// The words of `s`, as `str::split_whitespace` gives them.
pub fn split_words(s: &Vec<char>) -> (r: Vec<Vec<char>>)
    ensures
        char_texts(r@) == words(s@),
{
    let pieces = split(s, false);
    non_empty_pieces(&pieces)
}

/// `s` without its trailing colons, as `str::trim_end_matches(':')` gives it.
pub fn trim_colons(s: &Vec<char>) -> (r: Vec<char>)
    ensures
        r@ == trim_end_colons(s@),
{
    let mut end = s.len();
    assert(s@.take(end as int) =~= s@);
    while end > 0 && s[end - 1] == ':'
        invariant
            end <= s.len(),
            trim_end_colons(s@) == trim_end_colons(s@.take(end as int)),
        decreases end,
    {
        assert(s@.take(end as int).drop_last() =~= s@.take(end - 1));
        end -= 1;
    }
    assert(trim_end_colons(s@.take(end as int)) == s@.take(end as int));
    let mut r: Vec<char> = Vec::new();
    let mut i: usize = 0;
    while i < end
        invariant
            end <= s.len(),
            i <= end,
            r@ == s@.take(i as int),
            trim_end_colons(s@) == s@.take(end as int),
        decreases end - i,
    {
        r.push(s[i]);
        i += 1;
        assert(r@ =~= s@.take(i as int));
    }
    r
}

} // verus!
