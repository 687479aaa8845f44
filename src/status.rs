use vstd::prelude::*;
use crate::grammar::{first_word, status_is_ok, trim_start};

verus! {

/// The characters of `s`, in order.
pub(crate) fn chars_of(s: &str) -> (r: Vec<char>)
    ensures
        r@ == s@,
{
    let mut v: Vec<char> = Vec::new();
    for c in it: s.chars()
        invariant
            v@ == it.seq().take(it.index() as int),
            it.seq() == s@,
    {
        v.push(c);
    }
    v
}
} // verus!

verus! {

/// The first position at or after `i` that holds no ASCII whitespace.
fn skip_spaces(cs: &Vec<char>, i: usize) -> (j: usize)
    requires
        i <= cs@.len(),
    ensures
        i <= j <= cs@.len(),
        trim_start(cs@.skip(i as int)) == cs@.skip(j as int),
{
    let mut k = i;
    while k < cs.len() && (cs[k] == ' ' || cs[k] == '\t' || cs[k] == '\n' || cs[k] == '\x0C' || cs[k]
        == '\r')
        invariant
            i <= k <= cs@.len(),
            trim_start(cs@.skip(i as int)) == trim_start(cs@.skip(k as int)),
        decreases cs.len() - k,
    {
        assert(cs@.skip(k as int).drop_first() =~= cs@.skip(k + 1));
        k = k + 1;
    }
    k
}

/// The end of the word that starts at `i`.
fn word_end(cs: &Vec<char>, i: usize) -> (j: usize)
    requires
        i <= cs@.len(),
    ensures
        i <= j <= cs@.len(),
        first_word(cs@.skip(i as int)) == cs@.subrange(i as int, j as int),
{
    let mut k = i;
    while k < cs.len() && !(cs[k] == ' ' || cs[k] == '\t' || cs[k] == '\n' || cs[k] == '\x0C'
        || cs[k] == '\r')
        invariant
            i <= k <= cs@.len(),
            first_word(cs@.skip(i as int)) == cs@.subrange(i as int, k as int) + first_word(
                cs@.skip(k as int),
            ),
        decreases cs.len() - k,
    {
        assert(cs@.skip(k as int).drop_first() =~= cs@.skip(k + 1));
        let ghost tail = first_word(cs@.skip(k + 1));
        assert(cs@.subrange(i as int, k as int) + (seq![cs@[k as int]] + tail) =~= cs@.subrange(
            i as int,
            k + 1,
        ) + tail);
        k = k + 1;
    }
    assert(cs@.subrange(i as int, k as int) + Seq::<char>::empty() =~= cs@.subrange(i as int, k as int));
    k
}

/// Whether a status line reads `HTTP/<version> 200 ...`.
pub fn is_ok(s: &str) -> (r: bool)
    ensures
        r == status_is_ok(s@),
{
    let cs = chars_of(s);
    assert(cs@.skip(0) =~= cs@);
    let a = skip_spaces(&cs, 0);
    let b = word_end(&cs, a);
    let c = skip_spaces(&cs, b);
    let d = word_end(&cs, c);
    proof {
        reveal_strlit("HTTP/");
        reveal_strlit("200");
        assert(cs@.skip(a as int).skip(b - a) =~= cs@.skip(b as int));
    }
    let version_ok = b - a >= 5 && cs[a] == 'H' && cs[a + 1] == 'T' && cs[a + 2] == 'T' && cs[a + 3]
        == 'P' && cs[a + 4] == '/';
    let code_ok = d - c == 3 && cs[c] == '2' && cs[c + 1] == '0' && cs[c + 2] == '0';
    proof {
        let version = cs@.subrange(a as int, b as int);
        let code = cs@.subrange(c as int, d as int);
        if version_ok {
            assert("HTTP/"@ =~= version.subrange(0, 5));
        }
        if version.len() >= 5 && "HTTP/"@.is_prefix_of(version) {
            assert(version.subrange(0, 5)[0] == 'H');
            assert(version.subrange(0, 5)[1] == 'T');
            assert(version.subrange(0, 5)[2] == 'T');
            assert(version.subrange(0, 5)[3] == 'P');
            assert(version.subrange(0, 5)[4] == '/');
        }
        assert("200"@.len() == 3);
        assert("200"@[0] == '2' && "200"@[1] == '0' && "200"@[2] == '0');
        if code_ok {
            assert(code =~= "200"@);
        }
        assert(trim_start(s@) == cs@.skip(a as int));
        assert(first_word(trim_start(s@)) == version);
        assert(trim_start(s@).skip(version.len() as int) == cs@.skip(b as int));
        assert(first_word(trim_start(trim_start(s@).skip(version.len() as int))) == code);
        assert(version_ok == (version.len() >= 5 && "HTTP/"@.is_prefix_of(version)));
        if code == "200"@ {
            assert(code[0] == '2' && code[1] == '0' && code[2] == '0');
        }
        assert(code_ok == (code == "200"@));
    }
    version_ok && code_ok
}

} // verus!

verus! {

/// Whether an HTTP reply with this status code is accepted: success codes
/// only, so redirects fail too.
pub fn status_accepted(code: u16) -> (r: bool)
    ensures
        r == (200 <= code <= 299),
{
    200 <= code && code <= 299
}

} // verus!
