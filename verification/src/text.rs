//! Character-level scanning utilities shared by the assembly frontend and
//! the shell: whitespace classification, trimming, searching, ASCII case
//! conversion, and string comparison, each tied to a spec-level definition
//! over `Seq<char>`.

use vstd::prelude::*;

verus! {

/// The Unicode `White_Space` code points, the set `char::is_whitespace`
/// recognises and `str::trim` removes.
pub open spec fn is_ws(c: char) -> bool {
    let u = c as u32;
    u == 0x09 || u == 0x0A || u == 0x0B || u == 0x0C || u == 0x0D || u == 0x20 || u == 0x85
        || u == 0xA0 || u == 0x1680 || (0x2000 <= u && u <= 0x200A) || u == 0x2028 || u == 0x2029
        || u == 0x202F || u == 0x205F || u == 0x3000
}

pub fn is_ws_c(c: char) -> (r: bool)
    ensures
        r == is_ws(c),
{
    let u = c as u32;
    u == 0x09 || u == 0x0A || u == 0x0B || u == 0x0C || u == 0x0D || u == 0x20 || u == 0x85
        || u == 0xA0 || u == 0x1680 || (0x2000 <= u && u <= 0x200A) || u == 0x2028 || u == 0x2029
        || u == 0x202F || u == 0x205F || u == 0x3000
}

/// ASCII upper-casing of a single character; other characters are unchanged.
pub open spec fn upper_char(c: char) -> char {
    if c == 'a' {
        'A'
    } else if c == 'b' {
        'B'
    } else if c == 'c' {
        'C'
    } else if c == 'd' {
        'D'
    } else if c == 'e' {
        'E'
    } else if c == 'f' {
        'F'
    } else if c == 'g' {
        'G'
    } else if c == 'h' {
        'H'
    } else if c == 'i' {
        'I'
    } else if c == 'j' {
        'J'
    } else if c == 'k' {
        'K'
    } else if c == 'l' {
        'L'
    } else if c == 'm' {
        'M'
    } else if c == 'n' {
        'N'
    } else if c == 'o' {
        'O'
    } else if c == 'p' {
        'P'
    } else if c == 'q' {
        'Q'
    } else if c == 'r' {
        'R'
    } else if c == 's' {
        'S'
    } else if c == 't' {
        'T'
    } else if c == 'u' {
        'U'
    } else if c == 'v' {
        'V'
    } else if c == 'w' {
        'W'
    } else if c == 'x' {
        'X'
    } else if c == 'y' {
        'Y'
    } else if c == 'z' {
        'Z'
    } else {
        c
    }
}

pub open spec fn upper_seq(s: Seq<char>) -> Seq<char> {
    s.map_values(|c: char| upper_char(c))
}

/// Index of the first occurrence of `c` in `s`, or `s.len()` if absent.
pub open spec fn find_char_at(s: Seq<char>, c: char) -> nat
    decreases s.len(),
{
    if s.len() == 0 {
        0
    } else if s[0] == c {
        0
    } else {
        1 + find_char_at(s.drop_first(), c)
    }
}

pub proof fn lemma_find_char_at(s: Seq<char>, c: char, i: int)
    requires
        0 <= i <= s.len(),
        forall|k: int| 0 <= k < i ==> s[k] != c,
        i < s.len() ==> s[i] == c,
    ensures
        find_char_at(s, c) == i,
    decreases i,
{
    if i == 0 {
    } else {
        assert(s[0] != c);
        lemma_find_char_at(s.drop_first(), c, i - 1);
    }
}

/// Index of the first whitespace character in `s`, or `s.len()` if absent.
pub open spec fn find_ws_at(s: Seq<char>) -> nat
    decreases s.len(),
{
    if s.len() == 0 {
        0
    } else if is_ws(s[0]) {
        0
    } else {
        1 + find_ws_at(s.drop_first())
    }
}

pub proof fn lemma_find_ws_at(s: Seq<char>, i: int)
    requires
        0 <= i <= s.len(),
        forall|k: int| 0 <= k < i ==> !is_ws(s[k]),
        i < s.len() ==> is_ws(s[i]),
    ensures
        find_ws_at(s) == i,
    decreases i,
{
    if i == 0 {
    } else {
        lemma_find_ws_at(s.drop_first(), i - 1);
    }
}

/// Number of leading whitespace characters of `s`.
pub open spec fn ws_prefix_len(s: Seq<char>) -> nat
    decreases s.len(),
{
    if s.len() > 0 && is_ws(s[0]) {
        1 + ws_prefix_len(s.drop_first())
    } else {
        0
    }
}

/// Number of trailing whitespace characters of `s`.
pub open spec fn ws_suffix_len(s: Seq<char>) -> nat
    decreases s.len(),
{
    if s.len() > 0 && is_ws(s[s.len() - 1]) {
        1 + ws_suffix_len(s.drop_last())
    } else {
        0
    }
}

/// What `str::trim` leaves: `s` without leading and trailing whitespace.
pub open spec fn spec_trim(s: Seq<char>) -> Seq<char> {
    let rest = s.skip(ws_prefix_len(s) as int);
    rest.take(rest.len() - ws_suffix_len(rest))
}

pub proof fn lemma_ws_prefix_len(s: Seq<char>, i: int)
    requires
        0 <= i <= s.len(),
        forall|k: int| 0 <= k < i ==> is_ws(s[k]),
        i < s.len() ==> !is_ws(s[i]),
    ensures
        ws_prefix_len(s) == i,
    decreases i,
{
    if i == 0 {
    } else {
        lemma_ws_prefix_len(s.drop_first(), i - 1);
    }
}

pub proof fn lemma_ws_suffix_len(s: Seq<char>, j: int)
    requires
        0 <= j <= s.len(),
        forall|k: int| j <= k < s.len() ==> is_ws(s[k]),
        j > 0 ==> !is_ws(s[j - 1]),
    ensures
        ws_suffix_len(s) == s.len() - j,
    decreases s.len() - j,
{
    if j == s.len() {
    } else {
        assert(is_ws(s[s.len() - 1]));
        assert(s.drop_last() =~= s.take(s.len() - 1));
        lemma_ws_suffix_len(s.drop_last(), j);
    }
}

pub proof fn lemma_ws_prefix_le(s: Seq<char>)
    ensures
        ws_prefix_len(s) <= s.len(),
    decreases s.len(),
{
    if s.len() > 0 && is_ws(s[0]) {
        lemma_ws_prefix_le(s.drop_first());
    }
}

/// The whitespace prefix stops at the first non-whitespace character.
pub proof fn lemma_ws_prefix_stop(s: Seq<char>)
    ensures
        ws_prefix_len(s) <= s.len(),
        ws_prefix_len(s) < s.len() ==> !is_ws(s[ws_prefix_len(s) as int]),
    decreases s.len(),
{
    if s.len() > 0 && is_ws(s[0]) {
        lemma_ws_prefix_stop(s.drop_first());
    }
}

pub proof fn lemma_ws_suffix_le(s: Seq<char>)
    ensures
        ws_suffix_len(s) <= s.len(),
    decreases s.len(),
{
    if s.len() > 0 && is_ws(s[s.len() - 1]) {
        lemma_ws_suffix_le(s.drop_last());
    }
}

pub proof fn lemma_trim_len(s: Seq<char>)
    ensures
        spec_trim(s).len() <= s.len(),
{
    lemma_ws_prefix_le(s);
    lemma_ws_suffix_le(s.skip(ws_prefix_len(s) as int));
}

pub proof fn lemma_find_char_le(s: Seq<char>, c: char)
    ensures
        find_char_at(s, c) <= s.len(),
        find_char_at(s, c) < s.len() ==> s[find_char_at(s, c) as int] == c,
        forall|k: int| 0 <= k < find_char_at(s, c) ==> s[k] != c,
    decreases s.len(),
{
    if s.len() == 0 || s[0] == c {
    } else {
        lemma_find_char_le(s.drop_first(), c);
        assert forall|k: int| 0 <= k < find_char_at(s, c) implies s[k] != c by {
            if k > 0 {
                assert(s.drop_first()[k - 1] == s[k]);
            }
        }
    }
}

pub proof fn lemma_find_ws_le(s: Seq<char>)
    ensures
        find_ws_at(s) <= s.len(),
        find_ws_at(s) < s.len() ==> is_ws(s[find_ws_at(s) as int]),
        forall|k: int| 0 <= k < find_ws_at(s) ==> !is_ws(s[k]),
    decreases s.len(),
{
    if s.len() == 0 || is_ws(s[0]) {
    } else {
        lemma_find_ws_le(s.drop_first());
        assert forall|k: int| 0 <= k < find_ws_at(s) implies !is_ws(s[k]) by {
            if k > 0 {
                assert(s.drop_first()[k - 1] == s[k]);
            }
        }
    }
}

/// The characterisation used by the executable scanner: if `s[..i]` and
/// `s[j..]` are all whitespace and the boundary characters are not, then
/// trimming yields exactly `s[i..j]`.
pub proof fn lemma_trim_is(s: Seq<char>, i: int, j: int)
    requires
        0 <= i <= j <= s.len(),
        forall|k: int| 0 <= k < i ==> is_ws(s[k]),
        forall|k: int| j <= k < s.len() ==> is_ws(s[k]),
        i < j ==> !is_ws(s[i]),
        i < j ==> !is_ws(s[j - 1]),
    ensures
        spec_trim(s) == s.subrange(i, j),
{
    if i == j {
        // the whole string is whitespace
        assert(forall|k: int| 0 <= k < s.len() ==> is_ws(#[trigger] s[k]));
        lemma_ws_prefix_len(s, s.len() as int);
        let rest = s.skip(s.len() as int);
        assert(rest =~= Seq::<char>::empty());
        assert(spec_trim(s) =~= s.subrange(i, j));
    } else {
        lemma_ws_prefix_len(s, i);
        let rest = s.skip(i);
        assert(forall|k: int| j - i <= k < rest.len() ==> is_ws(#[trigger] rest[k]));
        assert(!is_ws(rest[j - i - 1]));
        lemma_ws_suffix_len(rest, j - i);
        assert(rest.take(j - i) =~= s.subrange(i, j));
    }
}

/// Executable trim with the exact semantics of `spec_trim`.
pub fn trim_str(s: &str) -> (r: &str)
    ensures
        r@ == spec_trim(s@),
        r@.len() <= s@.len(),
{
    let n = s.unicode_len();
    let mut i: usize = 0;
    while i < n && is_ws_c(s.get_char(i))
        invariant
            0 <= i <= n,
            n == s@.len(),
            forall|k: int| 0 <= k < i ==> is_ws(s@[k]),
        decreases n - i,
    {
        i += 1;
    }
    if i == n {
        proof {
            lemma_trim_is(s@, n as int, n as int);
        }
        let r = s.substring_char(n, n);
        return r;
    }
    let mut j: usize = n;
    while j > i && is_ws_c(s.get_char(j - 1))
        invariant
            i <= j <= n,
            n == s@.len(),
            i < n,
            !is_ws(s@[i as int]),
            forall|k: int| j <= k < n ==> is_ws(s@[k]),
        decreases j,
    {
        j -= 1;
    }
    proof {
        lemma_trim_is(s@, i as int, j as int);
    }
    s.substring_char(i, j)
}

/// Scan for the first occurrence of `c` at or after position `from`.
pub fn find_char_from(s: &str, from: usize, c: char) -> (k: usize)
    requires
        from <= s@.len(),
    ensures
        from <= k <= s@.len(),
        forall|j: int| from <= j < k ==> s@[j] != c,
        k < s@.len() ==> s@[k as int] == c,
        find_char_at(s@.skip(from as int), c) == k - from,
{
    let n = s.unicode_len();
    let mut k: usize = from;
    while k < n && s.get_char(k) != c
        invariant
            from <= k <= n,
            n == s@.len(),
            forall|j: int| from <= j < k ==> s@[j] != c,
        decreases n - k,
    {
        k += 1;
    }
    proof {
        let sub = s@.skip(from as int);
        assert(forall|j: int| 0 <= j < k - from ==> sub[j] != c);
        lemma_find_char_at(sub, c, k - from);
    }
    k
}

/// Scan for the first whitespace character at or after position `from`.
pub fn find_ws_from(s: &str, from: usize) -> (k: usize)
    requires
        from <= s@.len(),
    ensures
        from <= k <= s@.len(),
        forall|j: int| from <= j < k ==> !is_ws(s@[j]),
        k < s@.len() ==> is_ws(s@[k as int]),
        find_ws_at(s@.skip(from as int)) == k - from,
{
    let n = s.unicode_len();
    let mut k: usize = from;
    while k < n && !is_ws_c(s.get_char(k))
        invariant
            from <= k <= n,
            n == s@.len(),
            forall|j: int| from <= j < k ==> !is_ws(s@[j]),
        decreases n - k,
    {
        k += 1;
    }
    proof {
        let sub = s@.skip(from as int);
        assert(forall|j: int| 0 <= j < k - from ==> !is_ws(sub[j]));
        lemma_find_ws_at(sub, k - from);
    }
    k
}

/// Exact string comparison, by character.
pub fn str_eq(a: &str, b: &str) -> (r: bool)
    ensures
        r == (a@ == b@),
{
    let na = a.unicode_len();
    let nb = b.unicode_len();
    if na != nb {
        return false;
    }
    let mut i: usize = 0;
    while i < na
        invariant
            0 <= i <= na,
            na == a@.len(),
            na == b@.len(),
            forall|k: int| 0 <= k < i ==> a@[k] == b@[k],
        decreases na - i,
    {
        if a.get_char(i) != b.get_char(i) {
            return false;
        }
        i += 1;
    }
    proof {
        assert(a@ =~= b@);
    }
    true
}

/// The upper-case image of a single lower-case letter, as a string slice.
fn upper_char_str(c: char) -> (r: &'static str)
    requires
        'a' as u32 <= c as u32 && c as u32 <= 'z' as u32,
    ensures
        r@ =~= seq![upper_char(c)],
{
    let u = c as u32;
    if u == 'a' as u32 {
        proof { reveal_strlit("A"); }
        "A"
    } else if u == 'b' as u32 {
        proof { reveal_strlit("B"); }
        "B"
    } else if u == 'c' as u32 {
        proof { reveal_strlit("C"); }
        "C"
    } else if u == 'd' as u32 {
        proof { reveal_strlit("D"); }
        "D"
    } else if u == 'e' as u32 {
        proof { reveal_strlit("E"); }
        "E"
    } else if u == 'f' as u32 {
        proof { reveal_strlit("F"); }
        "F"
    } else if u == 'g' as u32 {
        proof { reveal_strlit("G"); }
        "G"
    } else if u == 'h' as u32 {
        proof { reveal_strlit("H"); }
        "H"
    } else if u == 'i' as u32 {
        proof { reveal_strlit("I"); }
        "I"
    } else if u == 'j' as u32 {
        proof { reveal_strlit("J"); }
        "J"
    } else if u == 'k' as u32 {
        proof { reveal_strlit("K"); }
        "K"
    } else if u == 'l' as u32 {
        proof { reveal_strlit("L"); }
        "L"
    } else if u == 'm' as u32 {
        proof { reveal_strlit("M"); }
        "M"
    } else if u == 'n' as u32 {
        proof { reveal_strlit("N"); }
        "N"
    } else if u == 'o' as u32 {
        proof { reveal_strlit("O"); }
        "O"
    } else if u == 'p' as u32 {
        proof { reveal_strlit("P"); }
        "P"
    } else if u == 'q' as u32 {
        proof { reveal_strlit("Q"); }
        "Q"
    } else if u == 'r' as u32 {
        proof { reveal_strlit("R"); }
        "R"
    } else if u == 's' as u32 {
        proof { reveal_strlit("S"); }
        "S"
    } else if u == 't' as u32 {
        proof { reveal_strlit("T"); }
        "T"
    } else if u == 'u' as u32 {
        proof { reveal_strlit("U"); }
        "U"
    } else if u == 'v' as u32 {
        proof { reveal_strlit("V"); }
        "V"
    } else if u == 'w' as u32 {
        proof { reveal_strlit("W"); }
        "W"
    } else if u == 'x' as u32 {
        proof { reveal_strlit("X"); }
        "X"
    } else if u == 'y' as u32 {
        proof { reveal_strlit("Y"); }
        "Y"
    } else {
        assert(c == 'z');
        proof { reveal_strlit("Z"); }
        "Z"
    }
}

/// ASCII upper-casing of a whole string, as `str::to_uppercase` maps the
/// ASCII range (other characters are kept unchanged).
pub fn to_upper(s: &str) -> (r: String)
    ensures
        r@ == upper_seq(s@),
{
    let n = s.unicode_len();
    let mut r = String::new();
    let mut i: usize = 0;
    while i < n
        invariant
            0 <= i <= n,
            n == s@.len(),
            r@ =~= upper_seq(s@).take(i as int),
        decreases n - i,
    {
        let c = s.get_char(i);
        let u = c as u32;
        if 'a' as u32 <= u && u <= 'z' as u32 {
            let piece = upper_char_str(c);
            r.append(piece);
        } else {
            let piece = s.substring_char(i, i + 1);
            assert(piece@ =~= seq![s@[i as int]]);
            assert(upper_char(s@[i as int]) == s@[i as int]);
            r.append(piece);
        }
        proof {
            assert(upper_seq(s@).take(i + 1) =~= upper_seq(s@).take(i as int).push(
                upper_char(s@[i as int]),
            ));
        }
        i += 1;
    }
    proof {
        assert(upper_seq(s@).take(n as int) =~= upper_seq(s@));
    }
    r
}

} // verus!
