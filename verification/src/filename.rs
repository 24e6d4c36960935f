use vstd::prelude::*;

verus! {

/// Reference semantics of shell-style name matching: `*` matches any
/// (possibly empty) run of characters, `?` matches exactly one character,
/// and every other pattern character matches itself.  The whole of `s`
/// must be consumed.
pub open spec fn glob_match(s: Seq<char>, p: Seq<char>) -> bool
    decreases p.len(), s.len(),
{
    if p.len() == 0 {
        s.len() == 0
    } else if p[0] == '*' {
        glob_match(s, p.skip(1)) || (s.len() > 0 && glob_match(s.skip(1), p))
    } else if p[0] == '?' {
        s.len() > 0 && glob_match(s.skip(1), p.skip(1))
    } else {
        s.len() > 0 && s[0] == p[0] && glob_match(s.skip(1), p.skip(1))
    }
}

/// Whether the pattern holds a wildcard character.
pub open spec fn has_wildcard_char(p: Seq<char>) -> bool {
    exists|i: int| 0 <= i < p.len() && (p[i] == '*' || p[i] == '?')
}

/// Checks whether the whole of `seq` matches the wildcard pattern `pattern`.
pub fn matches_seq(seq: &[char], pattern: &[char]) -> (r: bool)
    ensures
        r == glob_match(seq@, pattern@),
{
    proof {
        assert(seq@.skip(0) =~= seq@);
        assert(pattern@.skip(0) =~= pattern@);
    }
    matches_seq_from(seq, pattern, 0, 0)
}

fn matches_seq_from(seq: &[char], pattern: &[char], si: usize, pi: usize) -> (r: bool)
    requires
        si <= seq@.len(),
        pi <= pattern@.len(),
    ensures
        r == glob_match(seq@.skip(si as int), pattern@.skip(pi as int)),
    decreases pattern@.len() - pi, seq@.len() - si,
{
    proof {
        lemma_skip_step(seq@, si as int);
        lemma_skip_step(pattern@, pi as int);
    }
    if pi == pattern.len() {
        si == seq.len()
    } else {
        let pat = pattern[pi];
        if pat == '*' {
            if matches_seq_from(seq, pattern, si, pi + 1) {
                true
            } else if si < seq.len() {
                matches_seq_from(seq, pattern, si + 1, pi)
            } else {
                false
            }
        } else if pat == '?' {
            si < seq.len() && matches_seq_from(seq, pattern, si + 1, pi + 1)
        } else {
            si < seq.len() && seq[si] == pat && matches_seq_from(seq, pattern, si + 1, pi + 1)
        }
    }
}

/// `s.skip(i)` loses its head when one more element is skipped.
proof fn lemma_skip_step(s: Seq<char>, i: int)
    requires
        0 <= i <= s.len(),
    ensures
        i < s.len() ==> s.skip(i).len() == s.len() - i,
        i < s.len() ==> s.skip(i)[0] == s[i],
        i < s.len() ==> s.skip(i).skip(1) =~= s.skip(i + 1),
        i == s.len() ==> s.skip(i).len() == 0,
{
}

/// A pattern without wildcard characters matches exactly itself.
pub proof fn lemma_glob_match_no_wildcard(s: Seq<char>, p: Seq<char>)
    requires
        !has_wildcard_char(p),
    ensures
        glob_match(s, p) <==> s == p,
    decreases p.len(),
{
    if p.len() == 0 {
        if glob_match(s, p) {
            assert(s =~= p);
        }
    } else {
        assert(p[0] != '*' && p[0] != '?');
        assert(!has_wildcard_char(p.skip(1))) by {
            if has_wildcard_char(p.skip(1)) {
                let i = choose|i: int|
                    0 <= i < p.skip(1).len() && (p.skip(1)[i] == '*' || p.skip(1)[i] == '?');
                assert(p[i + 1] == p.skip(1)[i]);
            }
        }
        if s.len() > 0 {
            lemma_glob_match_no_wildcard(s.skip(1), p.skip(1));
            if glob_match(s, p) {
                assert(s.skip(1) == p.skip(1));
                assert(s.len() == p.len());
                assert forall|i: int| 0 <= i < s.len() implies s[i] == p[i] by {
                    if i >= 1 {
                        assert(s[i] == s.skip(1)[i - 1]);
                        assert(p[i] == p.skip(1)[i - 1]);
                    }
                }
                assert(s =~= p);
            }
            if s == p {
                assert(s.skip(1) =~= p.skip(1));
            }
        } else {
            if s == p {
                assert(p.len() == 0);
            }
        }
    }
}

/// File name matching with wildcard
#[derive(Debug, PartialEq, Eq)]
pub struct FileNamePattern {
    pattern: Vec<char>,
}

impl FileNamePattern {
    /// The character sequence this pattern was built from.
    pub closed spec fn view(&self) -> Seq<char> {
        self.pattern@
    }

    /// Checks whether a pattern contains any wildcard character.
    pub fn has_wildcard(pattern: &str) -> (r: bool)
        ensures
            r == has_wildcard_char(pattern@),
    {
        let n = pattern.unicode_len();
        for i in 0..n
            invariant
                n == pattern@.len(),
                forall|j: int| 0 <= j < i ==> pattern@[j] != '*' && pattern@[j] != '?',
        {
            let c = pattern.get_char(i);
            if c == '*' || c == '?' {
                return true;
            }
        }
        false
    }

    /// Creates `FileNamePattern`.
    ///
    /// `pattern` can contain wildcard character '*' or '?'.
    pub fn new(pattern: &str) -> (r: FileNamePattern)
        ensures
            r@ == pattern@,
    {
        let n = pattern.unicode_len();
        let mut chars: Vec<char> = Vec::new();
        for i in 0..n
            invariant
                n == pattern@.len(),
                chars@ =~= pattern@.take(i as int),
        {
            chars.push(pattern.get_char(i));
            proof {
                assert(chars@ =~= pattern@.take(i + 1));
            }
        }
        proof {
            assert(pattern@.take(n as int) =~= pattern@);
        }
        FileNamePattern { pattern: chars }
    }

    /// Checks whether whole of a text matches this pattern
    pub fn matches(&self, s: &str) -> (r: bool)
        ensures
            r == glob_match(s@, self@),
    {
        let n = s.unicode_len();
        let mut chars: Vec<char> = Vec::new();
        for i in 0..n
            invariant
                n == s@.len(),
                chars@ =~= s@.take(i as int),
        {
            chars.push(s.get_char(i));
            proof {
                assert(chars@ =~= s@.take(i + 1));
            }
        }
        proof {
            assert(s@.take(n as int) =~= s@);
        }
        let r = matches_seq(chars.as_slice(), self.pattern.as_slice());
        r
    }

    /// Returns pattern string.
    pub fn get_pattern(&self) -> (r: String)
        ensures
            r@ == self@,
    {
        chars_to_string(&self.pattern)
    }
}

/// Builds a `String` whose view is the given character sequence.
pub fn chars_to_string(chars: &Vec<char>) -> (r: String)
    ensures
        r@ == chars@,
{
    let mut s = String::new();
    let n = chars.len();
    for i in 0..n
        invariant
            n == chars@.len(),
            s@ =~= chars@.take(i as int),
    {
        push_char(&mut s, chars[i]);
        proof {
            assert(s@ =~= chars@.take(i + 1));
        }
    }
    proof {
        assert(chars@.take(n as int) =~= chars@);
    }
    s
}

/// Relies on String::push: appends exactly the one character.
#[verifier::external_body]
pub fn push_char(s: &mut String, c: char)
    ensures
        final(s)@ == old(s)@.push(c),
{
    s.push(c)
}

/// Compares two string slices character by character.
pub fn str_eq(a: &str, b: &str) -> (r: bool)
    ensures
        r == (a@ == b@),
{
    let na = a.unicode_len();
    let nb = b.unicode_len();
    if na != nb {
        proof {
            assert(a@ != b@) by {
                assert(a@.len() != b@.len());
            }
        }
        return false;
    }
    for i in 0..na
        invariant
            na == a@.len(),
            nb == b@.len(),
            na == nb,
            forall|j: int| 0 <= j < i ==> a@[j] == b@[j],
    {
        if a.get_char(i) != b.get_char(i) {
            return false;
        }
    }
    proof {
        assert(a@ =~= b@);
    }
    true
}

} // verus!
