//! Small verified helpers on strings and character sequences.

use vstd::prelude::*;

verus! {

/// Turns a character vector into a `String` with the same characters.
#[verifier::external_body]
pub(crate) fn chars_to_string(v: &Vec<char>) -> (res: String)
    ensures
        res@ == v@,
{
    v.iter().collect()
}

/// The characters of a string slice, in order.
#[verifier::external_body]
pub(crate) fn str_to_chars(s: &str) -> (res: Vec<char>)
    ensures
        res@ == s@,
{
    s.chars().collect()
}

/// What `String::from_utf8_lossy` yields for a byte sequence.
pub uninterp spec fn utf8_lossy(bytes: Seq<u8>) -> Seq<char>;

/// Decodes bytes as UTF-8, replacing invalid sequences with U+FFFD
/// (`String::from_utf8_lossy`). On valid UTF-8 the result is the decoded text.
#[verifier::external_body]
pub(crate) fn bytes_to_string_lossy(bytes: &[u8]) -> (res: String)
    ensures
        res@ == utf8_lossy(bytes@),
        vstd::utf8::valid_utf8(bytes@) ==> res@ == vstd::utf8::decode_utf8(bytes@),
{
    String::from_utf8_lossy(bytes).into_owned()
}

/// Whether `c` is one of the characters that `str::split_whitespace` splits on
/// and that `str::trim` removes, restricted to the ASCII ones.
pub open spec fn is_ws(c: char) -> bool {
    c == ' ' || c == '\t' || c == '\n' || c == '\r' || c == '\x0B' || c == '\x0C'
}

pub fn char_is_ws(c: char) -> (b: bool)
    ensures
        b == is_ws(c),
{
    c == ' ' || c == '\t' || c == '\n' || c == '\r' || c == '\x0B' || c == '\x0C'
}

/// Equality of two character sequences, decided element by element.
pub fn chars_eq(a: &Vec<char>, b: &Vec<char>) -> (res: bool)
    ensures
        res == (a@ == b@),
{
    if a.len() != b.len() {
        return false;
    }
    let mut i: usize = 0;
    while i < a.len()
        invariant
            a.len() == b.len(),
            i <= a.len(),
            forall|j: int| 0 <= j < i ==> a@[j] == b@[j],
        decreases a.len() - i,
    {
        if a[i] != b[i] {
            return false;
        }
        i = i + 1;
    }
    assert(a@ =~= b@);
    true
}

/// Equality of two strings by their characters.
pub fn str_eq(a: &str, b: &str) -> (res: bool)
    ensures
        res == (a@ == b@),
{
    let av = str_to_chars(a);
    let bv = str_to_chars(b);
    chars_eq(&av, &bv)
}

/// Equality of two strings by their characters.
pub fn string_eq(a: &String, b: &String) -> (res: bool)
    ensures
        res == (a@ == b@),
{
    str_eq(a.as_str(), b.as_str())
}

/// A copy of a string.
pub fn copy_string(s: &String) -> (res: String)
    ensures
        res@ == s@,
{
    let v = str_to_chars(s.as_str());
    chars_to_string(&v)
}

/// The characters of each string of a list.
pub open spec fn strings_view(v: Seq<String>) -> Seq<Seq<char>> {
    v.map_values(|s: String| s@)
}

/// Whether a sequence of strings holds one equal to `s`.
pub open spec fn seq_has_string(items: Seq<String>, s: Seq<char>) -> bool {
    exists|i: int| 0 <= i < items.len() && #[trigger] items[i]@ == s
}

/// Whether `items` holds a string equal to `s` (`Vec::contains` on strings).
pub fn vec_contains_string(items: &Vec<String>, s: &str) -> (res: bool)
    ensures
        res == seq_has_string(items@, s@),
{
    let mut i: usize = 0;
    while i < items.len()
        invariant
            i <= items.len(),
            forall|j: int| 0 <= j < i ==> items@[j]@ != s@,
        decreases items.len() - i,
    {
        if str_eq(items[i].as_str(), s) {
            assert(items@[i as int]@ == s@);
            return true;
        }
        i = i + 1;
    }
    false
}

/// `needle` occurs as a contiguous piece of `hay`.
pub open spec fn has_infix(hay: Seq<char>, needle: Seq<char>) -> bool {
    exists|k: int| 0 <= k && k + needle.len() <= hay.len()
        && #[trigger] hay.subrange(k, k + needle.len()) == needle
}

/// `needle` starts `hay` at position `k`.
pub open spec fn occurs_at(hay: Seq<char>, needle: Seq<char>, k: int) -> bool {
    0 <= k && k + needle.len() <= hay.len() && forall|j: int|
        0 <= j < needle.len() ==> #[trigger] hay[k + j] == needle[j]
}

proof fn lemma_occurs_at_subrange(hay: Seq<char>, needle: Seq<char>, k: int)
    ensures
        occurs_at(hay, needle, k) <==> (0 <= k && k + needle.len() <= hay.len()
            && hay.subrange(k, k + needle.len()) == needle),
{
    if occurs_at(hay, needle, k) {
        assert forall|j: int| 0 <= j < needle.len() implies #[trigger] hay.subrange(k, k + needle.len())[j] == needle[j] by {
            assert(hay[k + j] == needle[j]);
        }
        assert(hay.subrange(k, k + needle.len()) =~= needle);
    }
    if 0 <= k && k + needle.len() <= hay.len() && hay.subrange(k, k + needle.len()) == needle {
        assert forall|j: int| 0 <= j < needle.len() implies #[trigger] hay[k + j] == needle[j] by {
            assert(hay.subrange(k, k + needle.len())[j] == hay[k + j]);
        }
    }
}

/// Whether `needle` occurs at position `k` of `hay`.
fn chars_occur_at(hay: &Vec<char>, needle: &Vec<char>, k: usize) -> (res: bool)
    ensures
        res == occurs_at(hay@, needle@, k as int),
{
    if k > hay.len() || needle.len() > hay.len() - k {
        return false;
    }
    let mut j: usize = 0;
    while j < needle.len()
        invariant
            k + needle.len() <= hay.len(),
            j <= needle.len(),
            forall|i: int| 0 <= i < j ==> hay@[k + i] == needle@[i],
        decreases needle.len() - j,
    {
        if hay[k + j] != needle[j] {
            return false;
        }
        j = j + 1;
    }
    true
}

/// Whether `needle` occurs somewhere in `hay` (`str::contains`).
pub fn str_contains(hay: &str, needle: &str) -> (res: bool)
    ensures
        res == has_infix(hay@, needle@),
{
    let h = str_to_chars(hay);
    let n = str_to_chars(needle);
    if n.len() > h.len() {
        return false;
    }
    let mut k: usize = 0;
    while k <= h.len() - n.len()
        invariant
            n.len() <= h.len(),
            h@ == hay@,
            n@ == needle@,
            k <= h.len() - n.len() + 1,
            forall|i: int| 0 <= i < k ==> !occurs_at(hay@, needle@, i),
        decreases h.len() - n.len() + 1 - k,
    {
        if chars_occur_at(&h, &n, k) {
            proof {
                lemma_occurs_at_subrange(hay@, needle@, k as int);
            }
            return true;
        }
        k = k + 1;
    }
    proof {
        if has_infix(hay@, needle@) {
            let w = choose|w: int| 0 <= w && w + needle@.len() <= hay@.len()
                && #[trigger] hay@.subrange(w, w + needle@.len()) == needle@;
            lemma_occurs_at_subrange(hay@, needle@, w);
        }
    }
    false
}


/// `s` without its leading whitespace.
pub open spec fn trim_start(s: Seq<char>) -> Seq<char>
    decreases s.len(),
{
    if s.len() > 0 && is_ws(s[0]) {
        trim_start(s.drop_first())
    } else {
        s
    }
}

/// `s` without its trailing whitespace.
pub open spec fn trim_end(s: Seq<char>) -> Seq<char>
    decreases s.len(),
{
    if s.len() > 0 && is_ws(s.last()) {
        trim_end(s.drop_last())
    } else {
        s
    }
}

/// `s` without leading and trailing whitespace (`str::trim`).
pub open spec fn spec_trim(s: Seq<char>) -> Seq<char> {
    trim_end(trim_start(s))
}

/// The characters of `s` without leading and trailing whitespace.
pub fn trim_chars(s: &str) -> (res: Vec<char>)
    ensures
        res@ == spec_trim(s@),
{
    let v = str_to_chars(s);
    let mut start: usize = 0;
    assert(v@.skip(0) =~= v@);
    while start < v.len() && char_is_ws(v[start])
        invariant
            start <= v.len(),
            v@ == s@,
            trim_start(s@) == trim_start(v@.skip(start as int)),
        decreases v.len() - start,
    {
        assert(v@.skip(start as int).drop_first() =~= v@.skip(start + 1));
        start = start + 1;
    }
    let mut end: usize = v.len();
    assert(v@.skip(start as int) =~= v@.subrange(start as int, end as int));
    assert(trim_start(v@.skip(start as int)) == v@.skip(start as int));
    while end > start && char_is_ws(v[end - 1])
        invariant
            start <= end <= v.len(),
            v@ == s@,
            trim_start(s@) == v@.skip(start as int),
            spec_trim(s@) == trim_end(v@.subrange(start as int, end as int)),
        decreases end - start,
    {
        assert(v@.subrange(start as int, end as int).drop_last() =~= v@.subrange(start as int, end - 1));
        end = end - 1;
    }
    let mut res: Vec<char> = Vec::new();
    let mut k = start;
    while k < end
        invariant
            start <= k <= end <= v.len(),
            res@ == v@.subrange(start as int, k as int),
        decreases end - k,
    {
        res.push(v[k]);
        k = k + 1;
        assert(res@ =~= v@.subrange(start as int, k as int));
    }
    res
}

/// Whether two strings are equal once trimmed.
pub fn trimmed_eq(a: &str, b: &str) -> (res: bool)
    ensures
        res == (spec_trim(a@) == spec_trim(b@)),
{
    let ta = trim_chars(a);
    let tb = trim_chars(b);
    chars_eq(&ta, &tb)
}

/// `s` with each occurrence of the nonempty `pat` replaced by `rep`, the
/// occurrences taken from the left without overlap (`str::replace`).
pub open spec fn replace_all(s: Seq<char>, pat: Seq<char>, rep: Seq<char>) -> Seq<char>
    decreases s.len(),
{
    if pat.len() == 0 || s.len() == 0 {
        s
    } else if occurs_at(s, pat, 0) {
        rep + replace_all(s.skip(pat.len() as int), pat, rep)
    } else {
        seq![s[0]] + replace_all(s.drop_first(), pat, rep)
    }
}

proof fn lemma_occurs_at_skip(hay: Seq<char>, needle: Seq<char>, i: int)
    requires
        0 <= i <= hay.len(),
    ensures
        occurs_at(hay, needle, i) == occurs_at(hay.skip(i), needle, 0),
{
    if occurs_at(hay.skip(i), needle, 0) {
        assert forall|j: int| 0 <= j < needle.len() implies #[trigger] hay[i + j] == needle[j] by {
            assert(hay.skip(i)[0 + j] == hay[i + j]);
        }
    }
    if occurs_at(hay, needle, i) {
        assert forall|j: int| 0 <= j < needle.len() implies #[trigger] hay.skip(i)[0 + j] == needle[j] by {
            assert(hay[i + j] == needle[j]);
        }
    }
}

/// Replacing a piece that occurs nowhere leaves the text as it is.
pub proof fn lemma_replace_absent(s: Seq<char>, pat: Seq<char>, rep: Seq<char>)
    requires
        !has_infix(s, pat) || pat.len() == 0,
    ensures
        replace_all(s, pat, rep) == s,
    decreases s.len(),
{
    if pat.len() > 0 && s.len() > 0 {
        lemma_occurs_at_subrange(s, pat, 0);
        if occurs_at(s, pat, 0) {
            assert(s.subrange(0, 0 + pat.len() as int) == pat);
        }
        assert(!has_infix(s.drop_first(), pat)) by {
            if has_infix(s.drop_first(), pat) {
                let k = choose|k: int| 0 <= k && k + pat.len() <= s.drop_first().len()
                    && #[trigger] s.drop_first().subrange(k, k + pat.len()) == pat;
                assert(s.subrange(k + 1, k + 1 + pat.len()) =~= s.drop_first().subrange(k, k + pat.len()));
            }
        }
        lemma_replace_absent(s.drop_first(), pat, rep);
        assert(seq![s[0]] + s.drop_first() =~= s);
    }
}

/// The characters of `s` with each occurrence of the nonempty `pat` replaced
/// by `rep`, from the left and without overlap.
pub fn replace_chars(s: &Vec<char>, pat: &Vec<char>, rep: &Vec<char>) -> (res: Vec<char>)
    requires
        pat@.len() > 0,
    ensures
        res@ == replace_all(s@, pat@, rep@),
{
    let mut out: Vec<char> = Vec::new();
    let mut i: usize = 0;
    assert(s@.skip(0) =~= s@);
    while i < s.len()
        invariant
            pat@.len() > 0,
            i <= s@.len(),
            replace_all(s@, pat@, rep@) == out@ + replace_all(s@.skip(i as int), pat@, rep@),
        decreases s@.len() - i,
    {
        let ghost rest = s@.skip(i as int);
        proof {
            lemma_occurs_at_skip(s@, pat@, i as int);
        }
        if chars_occur_at(s, pat, i) {
            let ghost before = out@;
            let mut j: usize = 0;
            while j < rep.len()
                invariant
                    j <= rep@.len(),
                    out@ == before + rep@.take(j as int),
                decreases rep@.len() - j,
            {
                out.push(rep[j]);
                j = j + 1;
                assert(out@ =~= before + rep@.take(j as int));
            }
            assert(rep@.take(rep@.len() as int) =~= rep@);
            assert(rest.skip(pat@.len() as int) =~= s@.skip(i + pat@.len()));
            assert(before + (rep@ + replace_all(rest.skip(pat@.len() as int), pat@, rep@)) =~= out@
                + replace_all(s@.skip(i + pat@.len()), pat@, rep@));
            i = i + pat.len();
        } else {
            let ghost before = out@;
            out.push(s[i]);
            assert(rest.drop_first() =~= s@.skip(i + 1));
            assert(rest[0] == s@[i as int]);
            assert(before + (seq![rest[0]] + replace_all(rest.drop_first(), pat@, rep@)) =~= out@
                + replace_all(s@.skip(i + 1), pat@, rep@));
            i = i + 1;
        }
    }
    assert(s@.skip(i as int) =~= Seq::<char>::empty());
    assert(out@ + Seq::<char>::empty() =~= out@);
    out
}

/// `s` with each occurrence of the nonempty `from` replaced by `to`
/// (`str::replace`).
pub fn replace_str(s: &str, from: &str, to: &str) -> (res: String)
    requires
        from@.len() > 0,
    ensures
        res@ == replace_all(s@, from@, to@),
{
    let sv = str_to_chars(s);
    let fv = str_to_chars(from);
    let tv = str_to_chars(to);
    let r = replace_chars(&sv, &fv, &tv);
    chars_to_string(&r)
}

/// A copy of a list of strings.
pub fn copy_strings(v: &Vec<String>) -> (res: Vec<String>)
    ensures
        res@.len() == v@.len(),
        forall|j: int| 0 <= j < v@.len() ==> #[trigger] res@[j]@ == v@[j]@,
        strings_view(res@) == strings_view(v@),
{
    let mut res: Vec<String> = Vec::new();
    let mut i: usize = 0;
    while i < v.len()
        invariant
            i <= v.len(),
            res@.len() == i,
            forall|j: int| 0 <= j < i ==> #[trigger] res@[j]@ == v@[j]@,
        decreases v.len() - i,
    {
        res.push(copy_string(&v[i]));
        i = i + 1;
    }
    assert(strings_view(res@) =~= strings_view(v@));
    res
}

/// A list of strings holds `s` exactly when its views do.
pub proof fn lemma_has_string_contains(items: Seq<String>, s: Seq<char>)
    ensures
        seq_has_string(items, s) == strings_view(items).contains(s),
{
    if seq_has_string(items, s) {
        let i = choose|i: int| 0 <= i < items.len() && #[trigger] items[i]@ == s;
        assert(strings_view(items)[i] == s);
    }
    if strings_view(items).contains(s) {
        let i = choose|i: int| 0 <= i < strings_view(items).len() && strings_view(items)[i] == s;
        assert(items[i]@ == s);
    }
}

/// `s` without its whitespace characters.
pub open spec fn without_ws(s: Seq<char>) -> Seq<char>
    decreases s.len(),
{
    if s.len() == 0 {
        s
    } else if is_ws(s.last()) {
        without_ws(s.drop_last())
    } else {
        without_ws(s.drop_last()).push(s.last())
    }
}

fn strip_ws(s: &str) -> (res: Vec<char>)
    ensures
        res@ == without_ws(s@),
{
    let v = str_to_chars(s);
    let mut res: Vec<char> = Vec::new();
    let mut i: usize = 0;
    while i < v.len()
        invariant
            i <= v@.len(),
            v@ == s@,
            res@ == without_ws(v@.take(i as int)),
        decreases v@.len() - i,
    {
        assert(v@.take(i + 1).drop_last() =~= v@.take(i as int));
        if !char_is_ws(v[i]) {
            res.push(v[i]);
        }
        i = i + 1;
    }
    assert(v@.take(v@.len() as int) =~= v@);
    res
}

/// Whether two texts are equal once all whitespace is removed.
pub fn eq_without_whitespace(s1: &str, s2: &str) -> (b: bool)
    ensures
        b == (without_ws(s1@) == without_ws(s2@)),
{
    let a = strip_ws(s1);
    let b = strip_ws(s2);
    chars_eq(&a, &b)
}

/// The characters of `a` followed by those of `b`.
pub fn concat_strings(a: &String, b: &String) -> (r: String)
    ensures
        r@ == a@ + b@,
{
    let mut v = str_to_chars(a.as_str());
    let w = str_to_chars(b.as_str());
    let ghost v0 = v@;
    let mut i: usize = 0;
    while i < w.len()
        invariant
            i <= w@.len(),
            v@ == v0 + w@.take(i as int),
        decreases w@.len() - i,
    {
        v.push(w[i]);
        i = i + 1;
        assert(v@ =~= v0 + w@.take(i as int));
    }
    assert(w@.take(w@.len() as int) =~= w@);
    chars_to_string(&v)
}

} // verus!
