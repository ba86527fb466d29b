//! Host names as cache keys: lower case, without trailing dots.

use vstd::prelude::*;
use vstd::string::*;

verus! {

/// The lower-case form of an ASCII capital; every other character is itself.
pub open spec fn ascii_lower(c: char) -> char {
    if 'A' <= c && c <= 'Z' {
        ((c as u8) + 32) as char
    } else {
        c
    }
}

/// The length of `s` without its trailing dots.
pub open spec fn trimmed_len(s: Seq<char>) -> nat
    decreases s.len(),
{
    if s.len() > 0 && s.last() == '.' {
        trimmed_len(s.drop_last())
    } else {
        s.len()
    }
}

/// The key under which a host is known: every ASCII capital lowered, and the
/// trailing dots taken off.
pub open spec fn normalize(s: Seq<char>) -> Seq<char> {
    let lowered = s.map_values(|c: char| ascii_lower(c));
    lowered.take(trimmed_len(lowered) as int)
}

/// Holds of a name that has no ASCII capital and does not end in a dot.
pub open spec fn is_normalized(s: Seq<char>) -> bool {
    &&& s.len() > 0 ==> s.last() != '.'
    &&& forall|i: int| 0 <= i < s.len() ==> !('A' <= #[trigger] s[i] && s[i] <= 'Z')
}

/// Trusted: `String::push` of std appends the one character to the string.
#[verifier::external_body]
fn push_char(s: &mut String, c: char)
    ensures
        final(s)@ == old(s)@.push(c),
{
    s.push(c)
}

fn to_ascii_lower(c: char) -> (r: char)
    ensures
        r == ascii_lower(c),
{
    if c >= 'A' && c <= 'Z' {
        ((c as u8) + 32u8) as char
    } else {
        c
    }
}

proof fn lemma_trimmed_len_bounds(s: Seq<char>)
    ensures
        trimmed_len(s) <= s.len(),
        trimmed_len(s) > 0 ==> s[trimmed_len(s) - 1] != '.',
        forall|i: int| trimmed_len(s) <= i < s.len() ==> s[i] == '.',
    decreases s.len(),
{
    if s.len() > 0 && s.last() == '.' {
        let front = s.drop_last();
        lemma_trimmed_len_bounds(front);
        assert forall|i: int| trimmed_len(s) <= i < s.len() implies s[i] == '.' by {
            if i < front.len() {
                assert(front[i] == s[i]);
            }
        }
    }
}

proof fn lemma_trimmed_len_is(s: Seq<char>, n: int)
    requires
        0 <= n <= s.len(),
        n > 0 ==> s[n - 1] != '.',
        forall|i: int| n <= i < s.len() ==> s[i] == '.',
    ensures
        trimmed_len(s) == n,
    decreases s.len(),
{
    if s.len() > 0 && s.last() == '.' {
        lemma_trimmed_len_is(s.drop_last(), n);
    }
}

/// A normalized host name. Two hosts that differ only in the case of their
/// ASCII letters or in trailing dots have the same name.
#[derive(Debug, PartialEq, Eq, Hash)]
pub struct Hostname {
    name: String,
}

impl View for Hostname {
    type V = Seq<char>;

    closed spec fn view(&self) -> Seq<char> {
        self.name@
    }
}

impl Hostname {
    pub fn new(host: &str) -> (h: Hostname)
        ensures
            h@ == normalize(host@),
    {
        let mut lowered: Vec<char> = Vec::new();
        for c in it: host.chars()
            invariant
                it.seq() == host@,
                lowered@ == host@.take(it.index() as int).map_values(|c: char| ascii_lower(c)),
        {
            lowered.push(to_ascii_lower(c));
        }
        assert(lowered@ == host@.map_values(|c: char| ascii_lower(c)));
        let mut keep: usize = lowered.len();
        while keep > 0 && lowered[keep - 1] == '.'
            invariant
                keep <= lowered.len(),
                forall|i: int| keep <= i < lowered.len() ==> lowered@[i] == '.',
            decreases keep,
        {
            keep -= 1;
        }
        proof {
            lemma_trimmed_len_is(lowered@, keep as int);
        }
        let mut name = String::new();
        let mut i: usize = 0;
        while i < keep
            invariant
                i <= keep <= lowered.len(),
                name@ == lowered@.take(i as int),
            decreases keep - i,
        {
            push_char(&mut name, lowered[i]);
            i += 1;
        }
        Hostname { name }
    }

    pub fn as_str(&self) -> (s: &str)
        ensures
            s@ == self@,
    {
        self.name.as_str()
    }

    /// Whether the two names are the same name.
    pub fn equals(&self, other: &Hostname) -> (same: bool)
        ensures
            same == (self@ == other@),
    {
        self.name == other.name
    }
}

impl Clone for Hostname {
    fn clone(&self) -> (h: Hostname)
        ensures
            h@ == self@,
    {
        Hostname { name: self.name.clone() }
    }
}

/// A name that `normalize` gives is normalized.
pub proof fn lemma_normalize_is_normalized(s: Seq<char>)
    ensures
        is_normalized(normalize(s)),
{
    let lowered = s.map_values(|c: char| ascii_lower(c));
    lemma_trimmed_len_bounds(lowered);
}

/// `normalize` leaves a normalized name as it is, so normalizing twice is
/// normalizing once.
pub proof fn lemma_normalize_idempotent(s: Seq<char>)
    ensures
        is_normalized(s) ==> normalize(s) == s,
        normalize(normalize(s)) == normalize(s),
{
    if is_normalized(s) {
        lemma_normalized_is_fixed(s);
    }
    lemma_normalize_is_normalized(s);
    lemma_normalized_is_fixed(normalize(s));
}

proof fn lemma_normalized_is_fixed(s: Seq<char>)
    requires
        is_normalized(s),
    ensures
        normalize(s) == s,
{
    let lowered = s.map_values(|c: char| ascii_lower(c));
    assert(lowered =~= s);
    lemma_trimmed_len_is(s, s.len() as int);
}

/// One more trailing dot does not change the name.
pub proof fn lemma_normalize_trailing_dot(s: Seq<char>)
    ensures
        normalize(s.push('.')) == normalize(s),
{
    let lowered = s.map_values(|c: char| ascii_lower(c));
    let dotted = s.push('.').map_values(|c: char| ascii_lower(c));
    assert(dotted.drop_last() =~= lowered);
    assert(dotted.last() == '.');
    lemma_trimmed_len_bounds(lowered);
    assert(dotted.take(trimmed_len(lowered) as int) =~= lowered.take(trimmed_len(lowered) as int));
}

/// Names that differ only in the case of ASCII letters are the same name.
pub proof fn lemma_normalize_ignores_case(s: Seq<char>, t: Seq<char>)
    requires
        s.len() == t.len(),
        forall|i: int| 0 <= i < s.len() ==> ascii_lower(s[i]) == ascii_lower(t[i]),
    ensures
        normalize(s) == normalize(t),
{
    assert(s.map_values(|c: char| ascii_lower(c)) =~= t.map_values(|c: char| ascii_lower(c)));
}

} // verus!
