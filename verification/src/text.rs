//! Small text helpers: case folding and lossy UTF-8 decoding, named results
//! of the std functions the rest of the library relies on, and a verified
//! character-wise string comparison.
use vstd::prelude::*;
use vstd::string::StrSliceExecFns;

verus! {

/// What `str::to_lowercase` returns for the given characters: a function of
/// the characters alone, in every process and on every machine.
pub uninterp spec fn lower_of(s: Seq<char>) -> Seq<char>;

/// Relies on std's `str::to_lowercase`: returns the lowercase equivalent of
/// the string slice, determined by its characters alone.
#[verifier::external_body]
pub fn lowercase(s: &str) -> (r: String)
    ensures
        r@ == lower_of(s@),
{
    s.to_lowercase()
}

/// What `String::from_utf8_lossy` returns for the given bytes: a function of
/// the bytes alone, invalid sequences replaced by the replacement character.
pub uninterp spec fn lossy_of(b: Seq<u8>) -> Seq<char>;

/// Relies on std's `String::from_utf8_lossy`: decodes the bytes as UTF-8,
/// replacing invalid sequences, determined by the bytes alone.
#[verifier::external_body]
pub fn utf8_lossy(b: &[u8]) -> (r: String)
    ensures
        r@ == lossy_of(b@),
{
    String::from_utf8_lossy(b).to_string()
}

/// Character-by-character string equality.
pub fn str_eq(a: &str, b: &str) -> (r: bool)
    ensures
        r == (a@ == b@),
{
    let la: usize = a.unicode_len();
    let lb: usize = b.unicode_len();
    if la != lb {
        return false;
    }
    let mut i: usize = 0;
    while i < la
        invariant
            la == a@.len(),
            lb == b@.len(),
            la == lb,
            i <= la,
            forall|j: int| 0 <= j < i ==> a@[j] == b@[j],
        decreases la - i,
    {
        if a.get_char(i) != b.get_char(i) {
            return false;
        }
        i = i + 1;
    }
    proof {
        assert(a@ =~= b@);
    }
    true
}

/// Whether `c` is a decimal digit.
pub open spec fn is_digit(c: char) -> bool {
    48 <= c as u32 <= 57
}

/// The numeric value of a digit character.
pub open spec fn digit_val(c: char) -> int {
    c as u32 - 48
}

/// Whether every character of `s` is a decimal digit.
pub open spec fn all_digits(s: Seq<char>) -> bool {
    forall|i: int| 0 <= i < s.len() ==> is_digit(s[i])
}

/// The value of `s` read as a decimal numeral.
pub open spec fn digits_val(s: Seq<char>) -> int
    decreases s.len(),
{
    if s.len() == 0 {
        0
    } else {
        digits_val(s.drop_last()) * 10 + digit_val(s.last())
    }
}

/// Splits `s` at occurrences of `sep`, `cur` being the (possibly empty)
/// piece already begun to the left of `s`.
pub open spec fn split_on(s: Seq<char>, sep: char, cur: Seq<char>) -> Seq<Seq<char>>
    decreases s.len(),
{
    if s.len() == 0 {
        seq![cur]
    } else if s[0] == sep {
        seq![cur] + split_on(s.skip(1), sep, Seq::empty())
    } else {
        split_on(s.skip(1), sep, cur.push(s[0]))
    }
}

pub proof fn lemma_skip_step(s: Seq<char>, i: int)
    requires
        0 <= i < s.len(),
    ensures
        s.skip(i).len() == s.len() - i,
        s.skip(i)[0] == s[i],
        s.skip(i).skip(1) =~= s.skip(i + 1),
{
}

pub proof fn lemma_digits_val_push(f: Seq<char>, c: char)
    ensures
        digits_val(f.push(c)) == digits_val(f) * 10 + digit_val(c),
        all_digits(f.push(c)) == (all_digits(f) && is_digit(c)),
{
    assert(f.push(c).drop_last() =~= f);
    assert(f.push(c).last() == c);
    if all_digits(f) && is_digit(c) {
        assert forall|i: int| 0 <= i < f.push(c).len() implies is_digit(f.push(c)[i]) by {
            if i < f.len() {
                assert(f.push(c)[i] == f[i]);
            } else {
                assert(f.push(c)[i] == c);
            }
        }
    }
    if all_digits(f.push(c)) {
        assert forall|i: int| 0 <= i < f.len() implies is_digit(f[i]) by {
            assert(f.push(c)[i] == f[i]);
        }
        assert(f.push(c)[f.len() as int] == c);
    }
}

/// Whether `p` is a prefix of `s`.
pub open spec fn has_prefix(s: Seq<char>, p: Seq<char>) -> bool {
    p.len() <= s.len() && s.take(p.len() as int) == p
}

/// Whether the string slice starts with the given prefix.
pub fn starts_with_str(s: &str, p: &str) -> (r: bool)
    ensures
        r == has_prefix(s@, p@),
{
    let ls: usize = s.unicode_len();
    let lp: usize = p.unicode_len();
    if lp > ls {
        return false;
    }
    let mut i: usize = 0;
    while i < lp
        invariant
            ls == s@.len(),
            lp == p@.len(),
            lp <= ls,
            i <= lp,
            forall|j: int| 0 <= j < i ==> s@[j] == p@[j],
        decreases lp - i,
    {
        if s.get_char(i) != p.get_char(i) {
            proof {
                assert(s@.take(lp as int)[i as int] == s@[i as int]);
            }
            return false;
        }
        i = i + 1;
    }
    proof {
        assert(s@.take(lp as int) =~= p@);
    }
    true
}

/// The pieces of `s` split at every occurrence of `sep`.
pub open spec fn split_char(s: Seq<char>, sep: char) -> Seq<Seq<char>> {
    split_on(s, sep, Seq::empty())
}

/// Splits the string at every occurrence of `sep`, keeping empty pieces.
pub fn split_string(s: &str, sep: char) -> (r: Vec<String>)
    ensures
        r@.len() == split_char(s@, sep).len(),
        forall|i: int| 0 <= i < r@.len() ==> (#[trigger] r@[i])@ == split_char(s@, sep)[i],
{
    let len: usize = s.unicode_len();
    let mut r: Vec<String> = Vec::new();
    let mut start: usize = 0;
    let ghost mut completed: Seq<Seq<char>> = Seq::empty();
    proof {
        assert(s@.skip(0) =~= s@);
        assert(s@.subrange(0, 0) =~= Seq::<char>::empty());
        assert(completed + split_on(s@, sep, Seq::empty()) =~= split_on(s@, sep, Seq::empty()));
    }
    let mut i: usize = 0;
    while i < len
        invariant
            len == s@.len(),
            i <= len,
            start <= i,
            split_char(s@, sep) == completed + split_on(
                s@.skip(i as int),
                sep,
                s@.subrange(start as int, i as int),
            ),
            r@.len() == completed.len(),
            forall|k: int| 0 <= k < completed.len() ==> (#[trigger] r@[k])@ == completed[k],
        decreases len - i,
    {
        let c = s.get_char(i);
        proof {
            lemma_skip_step(s@, i as int);
            assert(s@.subrange(start as int, i as int + 1) =~= s@.subrange(
                start as int,
                i as int,
            ).push(s@[i as int]));
        }
        if c == sep {
            let ghost cur = s@.subrange(start as int, i as int);
            let piece = s.substring_char(start, i).to_owned();
            r.push(piece);
            proof {
                assert(split_on(s@.skip(i as int), sep, cur) == seq![cur] + split_on(
                    s@.skip(i + 1),
                    sep,
                    Seq::empty(),
                ));
                assert(completed + (seq![cur] + split_on(s@.skip(i + 1), sep, Seq::empty()))
                    =~= completed.push(cur) + split_on(s@.skip(i + 1), sep, Seq::empty()));
                let old_completed = completed;
                completed = completed.push(cur);
                assert(completed[old_completed.len() as int] == cur);
                assert(forall|k: int|
                    0 <= k < old_completed.len() ==> #[trigger] completed[k] == old_completed[k]);
            }
            start = i + 1;
            proof {
                assert(s@.subrange(start as int, start as int) =~= Seq::<char>::empty());
            }
        } else {
            proof {
                assert(split_on(s@.skip(i as int), sep, s@.subrange(start as int, i as int))
                    == split_on(
                    s@.skip(i + 1),
                    sep,
                    s@.subrange(start as int, i as int).push(s@[i as int]),
                ));
            }
        }
        i = i + 1;
    }
    let ghost cur = s@.subrange(start as int, len as int);
    let piece = s.substring_char(start, len).to_owned();
    r.push(piece);
    proof {
        assert(s@.skip(len as int) =~= Seq::<char>::empty());
        assert(split_on(Seq::<char>::empty(), sep, cur) == seq![cur]);
        let old_completed = completed;
        completed = completed.push(cur);
        assert(completed =~= old_completed + seq![cur]);
        assert(completed[old_completed.len() as int] == cur);
        assert(forall|k: int|
            0 <= k < old_completed.len() ==> #[trigger] completed[k] == old_completed[k]);
    }
    r
}

/// Parses the decimal numeral standing at position `from` to the end of the
/// string. `Some` exactly when at least one character stands there, all of
/// them are digits, and the value fits a `usize`.
pub fn parse_usize_from(s: &str, from: usize) -> (r: Option<usize>)
    requires
        from <= s@.len(),
    ensures
        r is Some <==> (s@.skip(from as int).len() > 0 && all_digits(s@.skip(from as int))
            && digits_val(s@.skip(from as int)) <= usize::MAX),
        r matches Some(v) ==> v == digits_val(s@.skip(from as int)),
{
    let len: usize = s.unicode_len();
    let mut ok: bool = true;
    let mut v: usize = 0;
    let ghost mut cur: Seq<char> = Seq::empty();
    proof {
        assert(s@.subrange(from as int, from as int) =~= Seq::<char>::empty());
    }
    let mut i: usize = from;
    while i < len
        invariant
            len == s@.len(),
            from <= i <= len,
            cur == s@.subrange(from as int, i as int),
            ok <==> (all_digits(cur) && digits_val(cur) <= usize::MAX),
            ok ==> v == digits_val(cur),
        decreases len - i,
    {
        let c = s.get_char(i);
        let b: u32 = c as u32;
        proof {
            lemma_digits_val_push(cur, c);
            assert(s@.subrange(from as int, i as int + 1) =~= cur.push(s@[i as int]));
        }
        if ok && 48 <= b && b <= 57 {
            let d: usize = (b - 48) as usize;
            match v.checked_mul(10) {
                Some(x) => match x.checked_add(d) {
                    Some(y) => {
                        v = y;
                    },
                    None => {
                        ok = false;
                    },
                },
                None => {
                    ok = false;
                },
            }
        } else {
            ok = false;
        }
        proof {
            cur = cur.push(c);
        }
        i = i + 1;
    }
    proof {
        assert(s@.subrange(from as int, len as int) =~= s@.skip(from as int));
    }
    if ok && len > from {
        Some(v)
    } else {
        None
    }
}

/// The position of the first occurrence of `c` in `s`, if any.
pub open spec fn find_char(s: Seq<char>, c: char) -> Option<int>
    decreases s.len(),
{
    if s.len() == 0 {
        None
    } else if s[0] == c {
        Some(0)
    } else {
        match find_char(s.skip(1), c) {
            Some(i) => Some(i + 1),
            None => None,
        }
    }
}

/// What `find_char` finds: the first occurrence.
pub proof fn lemma_find_char_spec(s: Seq<char>, c: char)
    ensures
        match find_char(s, c) {
            Some(i) => 0 <= i < s.len() && s[i] == c && (forall|j: int| 0 <= j < i ==> s[j] != c),
            None => forall|j: int| 0 <= j < s.len() ==> s[j] != c,
        },
    decreases s.len(),
{
    if s.len() > 0 && s[0] != c {
        lemma_find_char_spec(s.skip(1), c);
        match find_char(s.skip(1), c) {
            Some(i) => {
                assert(s.skip(1)[i] == c);
                assert(s[i + 1] == c);
                assert forall|j: int| 0 <= j < i + 1 implies s[j] != c by {
                    if j > 0 {
                        assert(s.skip(1)[j - 1] == s[j]);
                    }
                }
                assert(find_char(s, c) == Some(i + 1));
            },
            None => {
                assert forall|j: int| 0 <= j < s.len() implies s[j] != c by {
                    if j > 0 {
                        assert(s.skip(1)[j - 1] == s[j]);
                    }
                }
            },
        }
    }
}

/// Finds the first occurrence of `c` at or after position `from`.
pub fn find_from(s: &str, from: usize, c: char) -> (r: Option<usize>)
    requires
        from <= s@.len(),
    ensures
        match r {
            Some(k) => from <= k < s@.len() && s@[k as int] == c && (forall|j: int|
                from <= j < k ==> s@[j] != c) && find_char(s@.skip(from as int), c) == Some(
                k - from as int,
            ),
            None => find_char(s@.skip(from as int), c) is None,
        },
{
    let len: usize = s.unicode_len();
    let mut i: usize = from;
    while i < len
        invariant
            len == s@.len(),
            from <= i <= len,
            forall|j: int| from <= j < i ==> s@[j] != c,
        decreases len - i,
    {
        if s.get_char(i) == c {
            proof {
                lemma_find_char_spec(s@.skip(from as int), c);
                assert(forall|j: int|
                    0 <= j < s@.skip(from as int).len() ==> s@.skip(from as int)[j] == s@[
                    j + from]);
                assert(s@.skip(from as int)[i - from] == c);
            }
            return Some(i);
        }
        i = i + 1;
    }
    proof {
        lemma_find_char_spec(s@.skip(from as int), c);
        assert(forall|j: int|
            0 <= j < s@.skip(from as int).len() ==> s@.skip(from as int)[j] == s@[j + from]);
    }
    None
}

/// Whether `c` is one of the whitespace characters the trimmer strips.
pub open spec fn is_ws(c: char) -> bool {
    c == ' ' || c == '\t' || c == '\n' || c == '\r'
}

/// `s` with leading whitespace stripped.
pub open spec fn trim_start_spec(s: Seq<char>) -> Seq<char>
    decreases s.len(),
{
    if s.len() > 0 && is_ws(s[0]) {
        trim_start_spec(s.skip(1))
    } else {
        s
    }
}

/// `s` with trailing whitespace stripped.
pub open spec fn trim_end_spec(s: Seq<char>) -> Seq<char>
    decreases s.len(),
{
    if s.len() > 0 && is_ws(s.last()) {
        trim_end_spec(s.drop_last())
    } else {
        s
    }
}

/// `s` with whitespace stripped at both ends.
pub open spec fn trim_spec(s: Seq<char>) -> Seq<char> {
    trim_end_spec(trim_start_spec(s))
}

/// Strips whitespace from both ends of the string slice.
pub fn trim<'a>(s: &'a str) -> (r: &'a str)
    ensures
        r@ == trim_spec(s@),
{
    let len: usize = s.unicode_len();
    let mut a: usize = 0;
    proof {
        assert(s@.skip(0) =~= s@);
    }
    loop
        invariant
            len == s@.len(),
            a <= len,
            trim_start_spec(s@) == trim_start_spec(s@.skip(a as int)),
        ensures
            a <= len,
            trim_start_spec(s@) == trim_start_spec(s@.skip(a as int)),
            a == len || !is_ws(s@[a as int]),
        decreases len - a,
    {
        if a >= len {
            break;
        }
        let c = s.get_char(a);
        if !(c == ' ' || c == '\t' || c == '\n' || c == '\r') {
            break;
        }
        proof {
            lemma_skip_step(s@, a as int);
        }
        a = a + 1;
    }
    proof {
        if a < len {
            assert(s@.skip(a as int)[0] == s@[a as int]);
            assert(!is_ws(s@.skip(a as int)[0]));
        } else {
            assert(s@.skip(a as int).len() == 0);
        }
        assert(trim_start_spec(s@.skip(a as int)) == s@.skip(a as int));
        assert(s@.skip(a as int) =~= s@.subrange(a as int, len as int));
    }
    let mut b: usize = len;
    loop
        invariant
            len == s@.len(),
            a <= b <= len,
            trim_end_spec(s@.skip(a as int)) == trim_end_spec(s@.subrange(a as int, b as int)),
        ensures
            a <= b <= len,
            trim_end_spec(s@.skip(a as int)) == trim_end_spec(s@.subrange(a as int, b as int)),
            b == a || !is_ws(s@[b - 1]),
        decreases b,
    {
        if b <= a {
            break;
        }
        let c = s.get_char(b - 1);
        if !(c == ' ' || c == '\t' || c == '\n' || c == '\r') {
            break;
        }
        proof {
            let seg = s@.subrange(a as int, b as int);
            assert(seg.last() == s@[b - 1]);
            assert(seg.drop_last() =~= s@.subrange(a as int, b as int - 1));
        }
        b = b - 1;
    }
    proof {
        let seg = s@.subrange(a as int, b as int);
        if b > a {
            assert(seg.last() == s@[b - 1]);
            assert(!is_ws(seg.last()));
        } else {
            assert(seg.len() == 0);
        }
        assert(trim_end_spec(seg) == seg);
    }
    s.substring_char(a, b)
}

/// The whitespace-separated words of `s`, `cur` being the word already
/// begun to the left of `s`; empty pieces are dropped.
pub open spec fn split_ws_rec(s: Seq<char>, cur: Seq<char>) -> Seq<Seq<char>>
    decreases s.len(),
{
    if s.len() == 0 {
        if cur.len() > 0 {
            seq![cur]
        } else {
            Seq::empty()
        }
    } else if is_ws(s[0]) {
        if cur.len() > 0 {
            seq![cur] + split_ws_rec(s.skip(1), Seq::empty())
        } else {
            split_ws_rec(s.skip(1), Seq::empty())
        }
    } else {
        split_ws_rec(s.skip(1), cur.push(s[0]))
    }
}

/// The whitespace-separated words of `s`.
pub open spec fn split_whitespace_spec(s: Seq<char>) -> Seq<Seq<char>> {
    split_ws_rec(s, Seq::empty())
}

/// Splits the string into its whitespace-separated words.
pub fn split_whitespace(s: &str) -> (r: Vec<String>)
    ensures
        r@.len() == split_whitespace_spec(s@).len(),
        forall|i: int| 0 <= i < r@.len() ==> (#[trigger] r@[i])@ == split_whitespace_spec(s@)[i],
{
    let len: usize = s.unicode_len();
    let mut r: Vec<String> = Vec::new();
    let mut start: usize = 0;
    let ghost mut completed: Seq<Seq<char>> = Seq::empty();
    proof {
        assert(s@.skip(0) =~= s@);
        assert(s@.subrange(0, 0) =~= Seq::<char>::empty());
        assert(completed + split_ws_rec(s@, Seq::empty()) =~= split_ws_rec(s@, Seq::empty()));
    }
    let mut i: usize = 0;
    while i < len
        invariant
            len == s@.len(),
            i <= len,
            start <= i,
            split_whitespace_spec(s@) == completed + split_ws_rec(
                s@.skip(i as int),
                s@.subrange(start as int, i as int),
            ),
            r@.len() == completed.len(),
            forall|k: int| 0 <= k < completed.len() ==> (#[trigger] r@[k])@ == completed[k],
        decreases len - i,
    {
        let c = s.get_char(i);
        proof {
            lemma_skip_step(s@, i as int);
            assert(s@.subrange(start as int, i as int + 1) =~= s@.subrange(
                start as int,
                i as int,
            ).push(s@[i as int]));
        }
        if c == ' ' || c == '\t' || c == '\n' || c == '\r' {
            let ghost cur = s@.subrange(start as int, i as int);
            if start < i {
                let piece = s.substring_char(start, i).to_owned();
                r.push(piece);
                proof {
                    assert(split_ws_rec(s@.skip(i as int), cur) == seq![cur] + split_ws_rec(
                        s@.skip(i + 1),
                        Seq::empty(),
                    ));
                    assert(completed + (seq![cur] + split_ws_rec(s@.skip(i + 1), Seq::empty()))
                        =~= completed.push(cur) + split_ws_rec(s@.skip(i + 1), Seq::empty()));
                    let old_completed = completed;
                    completed = completed.push(cur);
                    assert(completed[old_completed.len() as int] == cur);
                    assert(forall|k: int|
                        0 <= k < old_completed.len() ==> #[trigger] completed[k]
                            == old_completed[k]);
                }
            } else {
                proof {
                    assert(cur.len() == 0);
                    assert(split_ws_rec(s@.skip(i as int), cur) == split_ws_rec(
                        s@.skip(i + 1),
                        Seq::empty(),
                    ));
                }
            }
            start = i + 1;
            proof {
                assert(s@.subrange(start as int, start as int) =~= Seq::<char>::empty());
            }
        } else {
            proof {
                assert(split_ws_rec(s@.skip(i as int), s@.subrange(start as int, i as int))
                    == split_ws_rec(
                    s@.skip(i + 1),
                    s@.subrange(start as int, i as int).push(s@[i as int]),
                ));
            }
        }
        i = i + 1;
    }
    proof {
        assert(s@.skip(len as int) =~= Seq::<char>::empty());
    }
    if start < len {
        let ghost cur = s@.subrange(start as int, len as int);
        let piece = s.substring_char(start, len).to_owned();
        r.push(piece);
        proof {
            assert(split_ws_rec(Seq::<char>::empty(), cur) == seq![cur]);
            let old_completed = completed;
            completed = completed.push(cur);
            assert(completed =~= old_completed + seq![cur]);
            assert(completed[old_completed.len() as int] == cur);
            assert(forall|k: int|
                0 <= k < old_completed.len() ==> #[trigger] completed[k] == old_completed[k]);
        }
    } else {
        proof {
            let ghost cur = s@.subrange(start as int, len as int);
            assert(cur.len() == 0);
            assert(split_ws_rec(Seq::<char>::empty(), cur) =~= Seq::<Seq<char>>::empty());
            assert(completed + Seq::<Seq<char>>::empty() =~= completed);
        }
    }
    r
}

/// Lexicographic order on character sequences, by code point.
pub open spec fn lex_le(a: Seq<char>, b: Seq<char>) -> bool
    decreases a.len(),
{
    if a.len() == 0 {
        true
    } else if b.len() == 0 {
        false
    } else if (a[0] as u32) < (b[0] as u32) {
        true
    } else if (a[0] as u32) > (b[0] as u32) {
        false
    } else {
        lex_le(a.skip(1), b.skip(1))
    }
}

/// Law: the lexicographic order is total.
pub proof fn lemma_lex_total(a: Seq<char>, b: Seq<char>)
    ensures
        lex_le(a, b) || lex_le(b, a),
    decreases a.len(),
{
    if a.len() > 0 && b.len() > 0 && (a[0] as u32) == (b[0] as u32) {
        lemma_lex_total(a.skip(1), b.skip(1));
    }
}

/// Law: the lexicographic order is transitive.
pub proof fn lemma_lex_trans(a: Seq<char>, b: Seq<char>, c: Seq<char>)
    requires
        lex_le(a, b),
        lex_le(b, c),
    ensures
        lex_le(a, c),
    decreases a.len(),
{
    if a.len() > 0 && b.len() > 0 && c.len() > 0 && (a[0] as u32) == (b[0] as u32) && (b[0]
        as u32) == (c[0] as u32) {
        lemma_lex_trans(a.skip(1), b.skip(1), c.skip(1));
    }
}

proof fn lemma_lex_skip(a: Seq<char>, b: Seq<char>, i: int)
    requires
        0 <= i <= a.len(),
        i <= b.len(),
        forall|j: int| 0 <= j < i ==> (a[j] as u32) == (b[j] as u32),
    ensures
        lex_le(a, b) == lex_le(a.skip(i), b.skip(i)),
    decreases i,
{
    if i > 0 {
        assert((a[0] as u32) == (b[0] as u32));
        assert(lex_le(a, b) == lex_le(a.skip(1), b.skip(1)));
        assert forall|j: int| 0 <= j < i - 1 implies (a.skip(1)[j] as u32) == (b.skip(1)[j]
            as u32) by {
            assert(a.skip(1)[j] == a[j + 1]);
            assert(b.skip(1)[j] == b[j + 1]);
        }
        lemma_lex_skip(a.skip(1), b.skip(1), i - 1);
        assert(a.skip(1).skip(i - 1) =~= a.skip(i));
        assert(b.skip(1).skip(i - 1) =~= b.skip(i));
    } else {
        assert(a.skip(0) =~= a);
        assert(b.skip(0) =~= b);
    }
}

/// Compares two string slices in lexicographic (code point) order.
pub fn str_le(a: &str, b: &str) -> (r: bool)
    ensures
        r == lex_le(a@, b@),
{
    let la: usize = a.unicode_len();
    let lb: usize = b.unicode_len();
    let mut i: usize = 0;
    loop
        invariant
            la == a@.len(),
            lb == b@.len(),
            i <= la,
            i <= lb,
            forall|j: int| 0 <= j < i ==> (a@[j] as u32) == (b@[j] as u32),
        ensures
            i <= la,
            i <= lb,
            i == la || i == lb,
            forall|j: int| 0 <= j < i ==> (a@[j] as u32) == (b@[j] as u32),
        decreases la - i,
    {
        if i >= la || i >= lb {
            break;
        }
        let ca = a.get_char(i);
        let cb = b.get_char(i);
        if (ca as u32) < (cb as u32) {
            proof {
                lemma_lex_skip(a@, b@, i as int);
                assert(a@.skip(i as int)[0] == a@[i as int]);
                assert(b@.skip(i as int)[0] == b@[i as int]);
            }
            return true;
        }
        if (ca as u32) > (cb as u32) {
            proof {
                lemma_lex_skip(a@, b@, i as int);
                assert(a@.skip(i as int)[0] == a@[i as int]);
                assert(b@.skip(i as int)[0] == b@[i as int]);
            }
            return false;
        }
        i = i + 1;
    }
    proof {
        lemma_lex_skip(a@, b@, i as int);
        assert(a@.skip(i as int).len() == a@.len() - i);
        assert(b@.skip(i as int).len() == b@.len() - i);
        if i < la {
            assert(a@.skip(i as int)[0] == a@[i as int]);
        }
    }
    la <= lb
}

pub proof fn lemma_digits_val_nonneg(f: Seq<char>)
    requires
        all_digits(f),
    ensures
        0 <= digits_val(f),
    decreases f.len(),
{
    if f.len() > 0 {
        assert forall|i: int| 0 <= i < f.drop_last().len() implies is_digit(f.drop_last()[i]) by {
            assert(f.drop_last()[i] == f[i]);
        }
        lemma_digits_val_nonneg(f.drop_last());
        assert(is_digit(f.last()));
    }
}

} // verus!
