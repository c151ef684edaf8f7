//! The order of strings, sorted lists of distinct strings, the grep pattern
//! that the global rules' heuristics give, and file extensions.

use vstd::prelude::*;
use vstd::utf8::encode_utf8;
use crate::rules::{Rule, RuleV, rules_view};
use crate::text::{copy_string, str_eq, strings_view};

verus! {

/// The lexicographic order of byte sequences: a proper prefix comes first,
/// else the first differing byte decides.
pub open spec fn bytes_lt(a: Seq<u8>, b: Seq<u8>) -> bool
    decreases a.len(),
{
    if a.len() == 0 {
        b.len() > 0
    } else if b.len() == 0 {
        false
    } else if a[0] != b[0] {
        a[0] < b[0]
    } else {
        bytes_lt(a.drop_first(), b.drop_first())
    }
}

/// The order of strings: that of their UTF-8 bytes.
pub open spec fn str_lt(a: Seq<char>, b: Seq<char>) -> bool {
    bytes_lt(encode_utf8(a), encode_utf8(b))
}

pub proof fn lemma_bytes_lt_irreflexive(a: Seq<u8>)
    ensures
        !bytes_lt(a, a),
    decreases a.len(),
{
    if a.len() > 0 {
        lemma_bytes_lt_irreflexive(a.drop_first());
    }
}

pub proof fn lemma_bytes_lt_total(a: Seq<u8>, b: Seq<u8>)
    ensures
        a == b || bytes_lt(a, b) || bytes_lt(b, a),
    decreases a.len(),
{
    if a.len() > 0 && b.len() > 0 && a[0] == b[0] {
        lemma_bytes_lt_total(a.drop_first(), b.drop_first());
        if a.drop_first() == b.drop_first() {
            assert(a =~= seq![a[0]] + a.drop_first());
            assert(b =~= seq![b[0]] + b.drop_first());
        }
    } else if a.len() == 0 && b.len() == 0 {
        assert(a =~= b);
    }
}

pub proof fn lemma_bytes_lt_asymmetric(a: Seq<u8>, b: Seq<u8>)
    requires
        bytes_lt(a, b),
    ensures
        !bytes_lt(b, a),
    decreases a.len(),
{
    if a.len() > 0 && b.len() > 0 && a[0] == b[0] {
        lemma_bytes_lt_asymmetric(a.drop_first(), b.drop_first());
    }
}

pub proof fn lemma_bytes_lt_transitive(a: Seq<u8>, b: Seq<u8>, c: Seq<u8>)
    requires
        bytes_lt(a, b),
        bytes_lt(b, c),
    ensures
        bytes_lt(a, c),
    decreases a.len(),
{
    if a.len() > 0 && b.len() > 0 && c.len() > 0 && a[0] == b[0] && b[0] == c[0] {
        lemma_bytes_lt_transitive(a.drop_first(), b.drop_first(), c.drop_first());
    }
}

/// Strings are ordered totally.
pub proof fn lemma_str_lt_total(a: Seq<char>, b: Seq<char>)
    ensures
        a == b || str_lt(a, b) || str_lt(b, a),
        !(str_lt(a, b) && str_lt(b, a)),
        !str_lt(a, a),
{
    lemma_bytes_lt_total(encode_utf8(a), encode_utf8(b));
    if encode_utf8(a) == encode_utf8(b) {
        vstd::utf8::encode_utf8_decode_utf8(a);
        vstd::utf8::encode_utf8_decode_utf8(b);
    }
    if str_lt(a, b) {
        lemma_bytes_lt_asymmetric(encode_utf8(a), encode_utf8(b));
    }
    lemma_bytes_lt_irreflexive(encode_utf8(a));
}

pub proof fn lemma_str_lt_transitive(a: Seq<char>, b: Seq<char>, c: Seq<char>)
    requires
        str_lt(a, b),
        str_lt(b, c),
    ensures
        str_lt(a, c),
{
    lemma_bytes_lt_transitive(encode_utf8(a), encode_utf8(b), encode_utf8(c));
}

/// Whether `a` comes before `b`.
pub fn string_lt(a: &str, b: &str) -> (r: bool)
    ensures
        r == str_lt(a@, b@),
{
    let x = a.as_bytes();
    let y = b.as_bytes();
    let mut i: usize = 0;
    assert(x@.skip(0) =~= x@);
    assert(y@.skip(0) =~= y@);
    while i < x.len() && i < y.len()
        invariant
            i <= x@.len(),
            i <= y@.len(),
            bytes_lt(x@, y@) == bytes_lt(x@.skip(i as int), y@.skip(i as int)),
            x@ == encode_utf8(a@),
            y@ == encode_utf8(b@),
        decreases x@.len() - i,
    {
        if x[i] != y[i] {
            assert(x@.skip(i as int)[0] == x[i as int]);
            assert(y@.skip(i as int)[0] == y[i as int]);
            assert(bytes_lt(x@.skip(i as int), y@.skip(i as int)) == (x[i as int] < y[i as int]));
            return x[i] < y[i];
        }
        assert(x@.skip(i as int).drop_first() =~= x@.skip(i + 1));
        assert(y@.skip(i as int).drop_first() =~= y@.skip(i + 1));
        i = i + 1;
    }
    i < y.len()
}

/// The strings are in strictly increasing order (so none occurs twice).
pub open spec fn strictly_sorted(l: Seq<Seq<char>>) -> bool {
    forall|i: int, j: int| 0 <= i < j < l.len() ==> str_lt(#[trigger] l[i], #[trigger] l[j])
}

/// Inserts `s` into the sorted list, unless it is there already.
fn insert_sorted(v: &mut Vec<String>, s: String)
    requires
        strictly_sorted(strings_view(old(v)@)),
    ensures
        strictly_sorted(strings_view(final(v)@)),
        forall|x: Seq<char>| #[trigger] strings_view(final(v)@).contains(x) <==> (strings_view(old(v)@).contains(x) || x == s@),
{
    let ghost l = strings_view(v@);
    let mut k: usize = 0;
    while k < v.len()
        invariant
            k <= v@.len(),
            l == strings_view(v@),
            strictly_sorted(l),
            forall|i: int| 0 <= i < k ==> str_lt(#[trigger] l[i], s@),
        ensures
            k < v@.len() ==> !str_lt(l[k as int], s@),
        decreases v@.len() - k,
    {
        if !string_lt(v[k].as_str(), s.as_str()) {
            break;
        }
        k = k + 1;
    }
    if k < v.len() && str_eq(v[k].as_str(), s.as_str()) {
        assert(l[k as int] == s@);
        assert forall|x: Seq<char>| #[trigger] l.contains(x) <==> (l.contains(x) || x == s@) by {
            if x == s@ {
                assert(l[k as int] == x);
            }
        }
        return;
    }
    proof {
        if k < l.len() {
            assert(!str_lt(l[k as int], s@));
            lemma_str_lt_total(l[k as int], s@);
            assert(str_lt(s@, l[k as int]));
        }
    }
    let ghost sv = s@;
    v.insert(k, s);
    let ghost l2 = strings_view(v@);
    assert(l2 =~= l.insert(k as int, sv));
    assert forall|i: int, j: int| 0 <= i < j < l2.len() implies str_lt(#[trigger] l2[i], #[trigger] l2[j]) by {
        if j < k {
        } else if j == k {
            assert(l2[i] == l[i]);
        } else if i < k {
            assert(l2[j] == l[j - 1]);
            if i < j - 1 {
            }
        } else if i == k {
            assert(l2[j] == l[j - 1]);
            if j - 1 > k {
                lemma_str_lt_transitive(sv, l[k as int], l[j - 1]);
            }
        } else {
            assert(l2[i] == l[i - 1]);
            assert(l2[j] == l[j - 1]);
        }
    }
    assert forall|x: Seq<char>| #[trigger] l2.contains(x) <==> (l.contains(x) || x == sv) by {
        if l2.contains(x) {
            let i = choose|i: int| 0 <= i < l2.len() && l2[i] == x;
            if i < k {
                assert(l[i] == x);
            } else if i > k {
                assert(l[i - 1] == x);
            }
        }
        if l.contains(x) {
            let i = choose|i: int| 0 <= i < l.len() && l[i] == x;
            if i < k {
                assert(l2[i] == x);
            } else {
                assert(l2[i + 1] == x);
            }
        }
        if x == sv {
            assert(l2[k as int] == x);
        }
    }
}

/// The list joined with `|` between the strings.
pub open spec fn join_bars(l: Seq<Seq<char>>) -> Seq<char>
    decreases l.len(),
{
    if l.len() == 0 {
        seq![]
    } else if l.len() == 1 {
        l[0]
    } else {
        join_bars(l.drop_last()) + seq!['|'] + l.last()
    }
}

/// The strings joined with `|` between them.
pub fn join_with_bars(l: &Vec<String>) -> (r: String)
    ensures
        r@ == join_bars(strings_view(l@)),
{
    let ghost lv = strings_view(l@);
    let mut out: Vec<char> = Vec::new();
    let mut i: usize = 0;
    assert(lv.take(0) =~= Seq::<Seq<char>>::empty());
    while i < l.len()
        invariant
            i <= l@.len(),
            lv == strings_view(l@),
            out@ == join_bars(lv.take(i as int)),
        decreases l@.len() - i,
    {
        assert(lv.take(i + 1).drop_last() =~= lv.take(i as int));
        assert(lv.take(i + 1).last() == lv[i as int]);
        if i > 0 {
            out.push('|');
        }
        let cs = crate::text::str_to_chars(l[i].as_str());
        let ghost before = out@;
        let mut j: usize = 0;
        while j < cs.len()
            invariant
                j <= cs@.len(),
                out@ == before + cs@.take(j as int),
            decreases cs@.len() - j,
        {
            out.push(cs[j]);
            j = j + 1;
            assert(out@ =~= before + cs@.take(j as int));
        }
        assert(cs@.take(cs@.len() as int) =~= cs@);
        proof {
            if i == 0 {
                assert(lv.take(1) =~= seq![lv[0]]);
                assert(out@ =~= lv[0]);
            }
        }
        i = i + 1;
    }
    assert(lv.take(l@.len() as int) =~= lv);
    crate::text::chars_to_string(&out)
}

/// A heuristic that stands for a boolean literal, which every file has.
pub open spec fn is_bool_literal(s: Seq<char>) -> bool {
    s == "true"@ || s == "false"@
}

/// The grep heuristics of the rules, but for `true` and `false`.
pub open spec fn heuristic_strings(rules: Seq<RuleV>) -> Set<Seq<char>> {
    Set::new(
        |s: Seq<char>|
            !is_bool_literal(s) && exists|i: int, j: int|
                0 <= i < rules.len() && rules[i].grep_heuristics is Some && 0 <= j < rules[i].grep_heuristics->0.len()
                    && #[trigger] rules[i].grep_heuristics->0[j] == s,
    )
}

/// Every rule has grep heuristics.
pub open spec fn all_have_heuristics(rules: Seq<RuleV>) -> bool {
    forall|i: int| 0 <= i < rules.len() ==> (#[trigger] rules[i]).grep_heuristics is Some
}

/// The pattern that matches a file where one of the global rules may
/// match: the rules' grep heuristics, but for `true` and `false`, sorted,
/// each once, joined with `|`.
pub open spec fn is_grep_pattern(rules: Seq<RuleV>, pattern: Seq<char>) -> bool {
    exists|l: Seq<Seq<char>>|
        strictly_sorted(l) && (forall|s: Seq<char>| #[trigger] l.contains(s) <==> heuristic_strings(rules).contains(s))
            && pattern == join_bars(l)
}

/// The grep pattern of the rules (see `is_grep_pattern`).
pub fn grep_pattern(rules: &Vec<Rule>) -> (r: String)
    requires
        all_have_heuristics(rules_view(rules@)),
    ensures
        is_grep_pattern(rules_view(rules@), r@),
{
    let ghost rv = rules_view(rules@);
    let mut sorted: Vec<String> = Vec::new();
    let mut i: usize = 0;
    while i < rules.len()
        invariant
            i <= rules@.len(),
            rv == rules_view(rules@),
            all_have_heuristics(rv),
            strictly_sorted(strings_view(sorted@)),
            forall|s: Seq<char>|
                #[trigger] strings_view(sorted@).contains(s) <==> (!is_bool_literal(s) && exists|a: int, j: int|
                    0 <= a < i && 0 <= j < rv[a].grep_heuristics->0.len() && #[trigger] rv[a].grep_heuristics->0[j] == s),
        decreases rules@.len() - i,
    {
        let hs = match &rules[i].grep_heuristics {
            Some(h) => h,
            None => {
                assert(rv[i as int].grep_heuristics is Some);
                return String::new();
            },
        };
        assert(strings_view(hs@) == rv[i as int].grep_heuristics->0);
        let mut j: usize = 0;
        while j < hs.len()
            invariant
                i < rules@.len(),
                j <= hs@.len(),
                rv == rules_view(rules@),
                strings_view(hs@) == rv[i as int].grep_heuristics->0,
                strictly_sorted(strings_view(sorted@)),
                forall|s: Seq<char>|
                    #[trigger] strings_view(sorted@).contains(s) <==> (!is_bool_literal(s) && ((exists|a: int, b: int|
                        0 <= a < i && 0 <= b < rv[a].grep_heuristics->0.len() && #[trigger] rv[a].grep_heuristics->0[b] == s)
                        || exists|b: int| 0 <= b < j && #[trigger] rv[i as int].grep_heuristics->0[b] == s)),
            decreases hs@.len() - j,
        {
            let h = &hs[j];
            let skip = str_eq(h.as_str(), "true") || str_eq(h.as_str(), "false");
            let ghost before = strings_view(sorted@);
            if !skip {
                insert_sorted(&mut sorted, copy_string(h));
            }
            assert(rv[i as int].grep_heuristics->0[j as int] == h@);
            assert forall|s: Seq<char>|
                #[trigger] strings_view(sorted@).contains(s) <==> (!is_bool_literal(s) && ((exists|a: int, b: int|
                    0 <= a < i && 0 <= b < rv[a].grep_heuristics->0.len() && #[trigger] rv[a].grep_heuristics->0[b] == s)
                    || exists|b: int| 0 <= b < j + 1 && #[trigger] rv[i as int].grep_heuristics->0[b] == s)) by {
                if exists|b: int| 0 <= b < j + 1 && #[trigger] rv[i as int].grep_heuristics->0[b] == s {
                    let b = choose|b: int| 0 <= b < j + 1 && #[trigger] rv[i as int].grep_heuristics->0[b] == s;
                    if b < j {
                        assert(exists|b: int| 0 <= b < j && #[trigger] rv[i as int].grep_heuristics->0[b] == s);
                    }
                }
            }
            j = j + 1;
        }
        assert forall|s: Seq<char>|
            #[trigger] strings_view(sorted@).contains(s) <==> (!is_bool_literal(s) && exists|a: int, b: int|
                0 <= a < i + 1 && 0 <= b < rv[a].grep_heuristics->0.len() && #[trigger] rv[a].grep_heuristics->0[b] == s) by {
            if exists|a: int, b: int|
                0 <= a < i + 1 && 0 <= b < rv[a].grep_heuristics->0.len() && #[trigger] rv[a].grep_heuristics->0[b] == s {
                let (a, b) = choose|a: int, b: int|
                    0 <= a < i + 1 && 0 <= b < rv[a].grep_heuristics->0.len() && #[trigger] rv[a].grep_heuristics->0[b] == s;
                if a < i {
                    assert(exists|a: int, b: int|
                        0 <= a < i && 0 <= b < rv[a].grep_heuristics->0.len() && #[trigger] rv[a].grep_heuristics->0[b] == s);
                } else {
                    assert(exists|b: int| 0 <= b < j && #[trigger] rv[i as int].grep_heuristics->0[b] == s);
                }
            }
        }
        i = i + 1;
    }
    let ghost l = strings_view(sorted@);
    assert forall|s: Seq<char>| #[trigger] l.contains(s) <==> heuristic_strings(rv).contains(s) by {
        if heuristic_strings(rv).contains(s) {
            let (a, b) = choose|a: int, b: int|
                0 <= a < rv.len() && rv[a].grep_heuristics is Some && 0 <= b < rv[a].grep_heuristics->0.len()
                    && #[trigger] rv[a].grep_heuristics->0[b] == s;
            assert(exists|a: int, b: int|
                0 <= a < i && 0 <= b < rv[a].grep_heuristics->0.len() && #[trigger] rv[a].grep_heuristics->0[b] == s);
        }
        if l.contains(s) {
            let (a, b) = choose|a: int, b: int|
                0 <= a < i && 0 <= b < rv[a].grep_heuristics->0.len() && #[trigger] rv[a].grep_heuristics->0[b] == s;
            assert(rv[a].grep_heuristics is Some);
        }
    }
    let r = join_with_bars(&sorted);
    assert(strictly_sorted(l) && (forall|s: Seq<char>| #[trigger] l.contains(s) <==> heuristic_strings(rv).contains(s))
        && r@ == join_bars(l));
    r
}


/// The part of a path after its last `/`.
pub open spec fn file_name_of(path: Seq<char>) -> Seq<char>
    decreases path.len(),
{
    if path.len() == 0 {
        path
    } else if path.last() == '/' {
        seq![]
    } else {
        file_name_of(path.drop_last()).push(path.last())
    }
}

/// The file name of the path has the extension `ext`: it ends with a dot and
/// `ext`, with something before the dot; an extension has no dot.
pub open spec fn has_extension(path: Seq<char>, ext: Seq<char>) -> bool {
    let name = file_name_of(path);
    &&& !ext.contains('.')
    &&& name.len() >= ext.len() + 2
    &&& name.subrange(name.len() - ext.len() - 1, name.len() as int) == seq!['.'] + ext
}

/// Whether the file name of `path` has the extension `ext`.
pub fn path_has_extension(path: &str, ext: &str) -> (b: bool)
    ensures
        b == has_extension(path@, ext@),
{
    let p = crate::text::str_to_chars(path);
    let e = crate::text::str_to_chars(ext);
    let mut d: usize = 0;
    while d < e.len()
        invariant
            d <= e@.len(),
            e@ == ext@,
            forall|i: int| 0 <= i < d ==> e@[i] != '.',
        decreases e@.len() - d,
    {
        if e[d] == '.' {
            assert(e@.contains('.')) by {
                assert(e@[d as int] == '.');
            }
            return false;
        }
        d = d + 1;
    }
    let mut j: usize = p.len();
    assert(p@.take(p@.len() as int) =~= p@);
    assert(p@.subrange(p@.len() as int, p@.len() as int) =~= Seq::<char>::empty());
    while j > 0 && p[j - 1] != '/'
        invariant
            j <= p@.len(),
            file_name_of(p@) == file_name_of(p@.take(j as int)) + p@.subrange(j as int, p@.len() as int),
        decreases j,
    {
        assert(p@.take(j as int).drop_last() =~= p@.take(j - 1));
        assert(p@.take(j as int).last() == p@[j - 1]);
        assert(p@.subrange(j - 1, p@.len() as int) =~= seq![p@[j - 1]] + p@.subrange(j as int, p@.len() as int));
        j = j - 1;
    }
    proof {
        if j == 0 {
            assert(p@.take(0) =~= Seq::<char>::empty());
        } else {
            assert(p@.take(j as int).last() == '/');
        }
    }
    let ghost name = p@.subrange(j as int, p@.len() as int);
    assert(file_name_of(p@) =~= name);
    let n = p.len() - j;
    if n < 2 || n - 2 < e.len() {
        return false;
    }
    let start = p.len() - e.len() - 1;
    if p[start] != '.' {
        assert(name.subrange(name.len() - e@.len() - 1, name.len() as int)[0] == p@[start as int]);
        return false;
    }
    let mut k: usize = 0;
    while k < e.len()
        invariant
            k <= e@.len(),
            start + 1 + e@.len() == p@.len(),
            p@.len() == p.len(),
            j <= start,
            name == p@.subrange(j as int, p@.len() as int),
            name.len() >= e@.len() + 2,
            file_name_of(path@) == name,
            e@ == ext@,
            forall|i: int| 0 <= i < k ==> p@[start + 1 + i] == e@[i],
        decreases e@.len() - k,
    {
        if p[start + 1 + k] != e[k] {
            assert(name.subrange(name.len() - e@.len() - 1, name.len() as int)[k + 1] == p@[start + 1 + k]);
            assert((seq!['.'] + e@)[k + 1] == e@[k as int]);
            return false;
        }
        k = k + 1;
    }
    assert(name.subrange(name.len() - e@.len() - 1, name.len() as int) =~= seq!['.'] + e@);
    true
}

} // verus!
