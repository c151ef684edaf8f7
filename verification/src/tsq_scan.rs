//! A scan of the text of a tree-sitter query: the captures it defines
//! outside predicates, and the text of each predicate `(#...)`. Strings
//! (with their escapes) and `;` comments are skipped over.

use vstd::prelude::*;
use crate::text::{chars_to_string, str_to_chars, strings_view};

verus! {

/// Where the scan stands in the text.
pub enum ScanMode {
    /// Ordinary text.
    Code,
    /// Inside a string.
    Str,
    /// Right after a backslash inside a string.
    Escape,
    /// Inside a comment, up to the end of the line.
    Comment,
}

/// The state of the scan: the mode, how deep inside a predicate it is (0:
/// outside), whether the last character outside predicates opened a
/// parenthesis, the capture name being read (outside predicates), the
/// captures found, the texts of the predicates found and of the one being
/// read.
pub struct ScanState {
    pub mode: ScanMode,
    pub depth: nat,
    pub open: bool,
    pub cap: Option<Seq<char>>,
    pub groups: Seq<Seq<char>>,
    pub preds: Seq<Seq<char>>,
    pub cur: Seq<char>,
}

/// A character of a capture's name.
pub open spec fn is_capture_char(c: char) -> bool {
    ('a' <= c && c <= 'z') || ('A' <= c && c <= 'Z') || ('0' <= c && c <= '9') || c == '_' || c == '.' || c == '-'
}

pub open spec fn scan_init() -> ScanState {
    ScanState { mode: ScanMode::Code, depth: 0, open: false, cap: None, groups: seq![], preds: seq![], cur: seq![] }
}

/// A character in ordinary text, once a pending capture and a pending
/// parenthesis have been dealt with.
pub open spec fn code_step(st: ScanState, c: char) -> ScanState {
    if st.depth > 0 {
        let cur = st.cur.push(c);
        if c == '(' {
            ScanState { depth: st.depth + 1, cur, ..st }
        } else if c == ')' {
            if st.depth == 1 {
                ScanState { depth: 0, preds: st.preds.push(cur), cur: seq![], ..st }
            } else {
                ScanState { depth: (st.depth - 1) as nat, cur, ..st }
            }
        } else if c == '"' {
            ScanState { mode: ScanMode::Str, cur, ..st }
        } else if c == ';' {
            ScanState { mode: ScanMode::Comment, cur, ..st }
        } else {
            ScanState { cur, ..st }
        }
    } else if c == '"' {
        ScanState { mode: ScanMode::Str, ..st }
    } else if c == ';' {
        ScanState { mode: ScanMode::Comment, ..st }
    } else if c == '(' {
        ScanState { open: true, ..st }
    } else if c == '@' {
        ScanState { cap: Some(seq![]), ..st }
    } else {
        st
    }
}

/// One character of the scan.
pub open spec fn scan_step(st: ScanState, c: char) -> ScanState {
    match st.mode {
        ScanMode::Comment => if c == '\n' {
            ScanState { mode: ScanMode::Code, ..st }
        } else {
            st
        },
        ScanMode::Str => {
            let cur = if st.depth > 0 {
                st.cur.push(c)
            } else {
                st.cur
            };
            if c == '\\' {
                ScanState { mode: ScanMode::Escape, cur, ..st }
            } else if c == '"' {
                ScanState { mode: ScanMode::Code, cur, ..st }
            } else {
                ScanState { cur, ..st }
            }
        },
        ScanMode::Escape => {
            let cur = if st.depth > 0 {
                st.cur.push(c)
            } else {
                st.cur
            };
            ScanState { mode: ScanMode::Str, cur, ..st }
        },
        ScanMode::Code => {
            match st.cap {
                Some(n) => if is_capture_char(c) {
                    ScanState { cap: Some(n.push(c)), ..st }
                } else {
                    code_step(ScanState { cap: None, groups: st.groups.push(seq!['@'] + n), ..st }, c)
                },
                None => if st.open {
                    if c == '#' && st.depth == 0 {
                        ScanState { open: false, depth: 1, cur: seq!['(', '#'], ..st }
                    } else {
                        code_step(ScanState { open: false, ..st }, c)
                    }
                } else {
                    code_step(st, c)
                },
            }
        },
    }
}

/// The state after the first `n` characters.
pub open spec fn scan_upto(s: Seq<char>, n: int) -> ScanState
    decreases n,
{
    if n <= 0 {
        scan_init()
    } else {
        scan_step(scan_upto(s, n - 1), s[n - 1])
    }
}

/// The captures that a query defines outside its predicates, in order
/// (each `@` with the name after it).
pub open spec fn query_captures(s: Seq<char>) -> Seq<Seq<char>> {
    let st = scan_upto(s, s.len() as int);
    match st.cap {
        Some(n) => st.groups.push(seq!['@'] + n),
        None => st.groups,
    }
}

/// The texts of the predicates `(#...)` of a query, in order.
pub open spec fn query_predicates(s: Seq<char>) -> Seq<Seq<char>> {
    scan_upto(s, s.len() as int).preds
}

struct Scanner {
    mode: u8,
    depth: usize,
    open: bool,
    cap: Option<Vec<char>>,
    groups: Vec<Vec<char>>,
    preds: Vec<Vec<char>>,
    cur: Vec<char>,
}

spec fn mode_of(m: u8) -> ScanMode {
    if m == 1 {
        ScanMode::Str
    } else if m == 2 {
        ScanMode::Escape
    } else if m == 3 {
        ScanMode::Comment
    } else {
        ScanMode::Code
    }
}

spec fn chars_seqs(v: Seq<Vec<char>>) -> Seq<Seq<char>> {
    v.map_values(|x: Vec<char>| x@)
}

impl Scanner {
    spec fn sv(&self) -> ScanState {
        ScanState {
            mode: mode_of(self.mode),
            depth: self.depth as nat,
            open: self.open,
            cap: match self.cap {
                Some(v) => Some(v@),
                None => None,
            },
            groups: chars_seqs(self.groups@),
            preds: chars_seqs(self.preds@),
            cur: self.cur@,
        }
    }

    spec fn ok(&self) -> bool {
        self.mode <= 3
    }

    fn push_group(&mut self, n: Vec<char>)
        ensures
            final(self).sv() == (ScanState { groups: old(self).sv().groups.push(seq!['@'] + n@), ..old(self).sv() }),
            final(self).mode == old(self).mode,
    {
        let ghost nv = n@;
        let mut g: Vec<char> = Vec::new();
        g.push('@');
        let mut m = n;
        g.append(&mut m);
        assert(g@ =~= seq!['@'] + nv);
        let ghost before = self.groups@;
        self.groups.push(g);
        assert(chars_seqs(self.groups@) =~= chars_seqs(before).push(seq!['@'] + nv));
    }

    fn code_char(&mut self, c: char)
        requires
            old(self).ok(),
            old(self).depth < usize::MAX,
        ensures
            final(self).ok(),
            final(self).sv() == code_step(old(self).sv(), c),
    {
        if self.depth > 0 {
            self.cur.push(c);
            if c == '(' {
                self.depth = self.depth + 1;
            } else if c == ')' {
                if self.depth == 1 {
                    self.depth = 0;
                    let mut done: Vec<char> = Vec::new();
                    std::mem::swap(&mut done, &mut self.cur);
                    let ghost before = self.preds@;
                    self.preds.push(done);
                    assert(chars_seqs(self.preds@) =~= chars_seqs(before).push(done@));
                    assert(self.cur@ =~= Seq::<char>::empty());
                } else {
                    self.depth = self.depth - 1;
                }
            } else if c == '"' {
                self.mode = 1;
            } else if c == ';' {
                self.mode = 3;
            }
        } else if c == '"' {
            self.mode = 1;
        } else if c == ';' {
            self.mode = 3;
        } else if c == '(' {
            self.open = true;
        } else if c == '@' {
            self.cap = Some(Vec::new());
            assert(self.sv().cap == Some(Seq::<char>::empty()));
        }
    }

    fn step(&mut self, c: char)
        requires
            old(self).ok(),
            old(self).depth < usize::MAX,
        ensures
            final(self).ok(),
            final(self).sv() == scan_step(old(self).sv(), c),
            final(self).depth <= old(self).depth + 1,
    {
        if self.mode == 3 {
            if c == '\n' {
                self.mode = 0;
            }
        } else if self.mode == 1 {
            if self.depth > 0 {
                self.cur.push(c);
            }
            if c == '\\' {
                self.mode = 2;
            } else if c == '"' {
                self.mode = 0;
            }
        } else if self.mode == 2 {
            if self.depth > 0 {
                self.cur.push(c);
            }
            self.mode = 1;
        } else {
            let mut taken: Option<Vec<char>> = None;
            std::mem::swap(&mut taken, &mut self.cap);
            match taken {
                Some(mut n) => {
                    if is_capture_char_exec(c) {
                        n.push(c);
                        self.cap = Some(n);
                    } else {
                        self.push_group(n);
                        self.code_char(c);
                    }
                },
                None => {
                    if self.open {
                        self.open = false;
                        if c == '#' && self.depth == 0 {
                            self.depth = 1;
                            let mut start: Vec<char> = Vec::new();
                            start.push('(');
                            start.push('#');
                            self.cur = start;
                            assert(self.cur@ =~= seq!['(', '#']);
                        } else {
                            self.code_char(c);
                        }
                    } else {
                        self.code_char(c);
                    }
                },
            }
        }
    }
}

fn is_capture_char_exec(c: char) -> (b: bool)
    ensures
        b == is_capture_char(c),
{
    ('a' <= c && c <= 'z') || ('A' <= c && c <= 'Z') || ('0' <= c && c <= '9') || c == '_' || c == '.' || c == '-'
}

fn strings_of(v: Vec<Vec<char>>) -> (r: Vec<String>)
    ensures
        strings_view(r@) == chars_seqs(v@),
{
    let mut r: Vec<String> = Vec::new();
    let mut i: usize = 0;
    while i < v.len()
        invariant
            i <= v@.len(),
            strings_view(r@) == chars_seqs(v@).take(i as int),
        decreases v@.len() - i,
    {
        let ghost before = r@;
        let x = chars_to_string(&v[i]);
        r.push(x);
        assert(strings_view(r@) =~= strings_view(before).push(v@[i as int]@));
        assert(chars_seqs(v@).take(i + 1) =~= chars_seqs(v@).take(i as int).push(v@[i as int]@));
        i = i + 1;
    }
    assert(chars_seqs(v@).take(v@.len() as int) =~= chars_seqs(v@));
    r
}

/// The captures a query defines outside its predicates and the texts of its
/// predicates.
pub fn scan_query(q: &str) -> (res: (Vec<String>, Vec<String>))
    ensures
        strings_view(res.0@) == query_captures(q@),
        strings_view(res.1@) == query_predicates(q@),
{
    let s = str_to_chars(q);
    let mut sc = Scanner {
        mode: 0,
        depth: 0,
        open: false,
        cap: None,
        groups: Vec::new(),
        preds: Vec::new(),
        cur: Vec::new(),
    };
    assert(chars_seqs(sc.groups@) =~= Seq::<Seq<char>>::empty());
    assert(chars_seqs(sc.preds@) =~= Seq::<Seq<char>>::empty());
    let mut i: usize = 0;
    while i < s.len()
        invariant
            i <= s@.len(),
            s@ == q@,
            sc.ok(),
            sc.depth <= i,
            sc.sv() == scan_upto(q@, i as int),
        decreases s@.len() - i,
    {
        sc.step(s[i]);
        i = i + 1;
    }
    let Scanner { cap, groups, preds, .. } = sc;
    let mut groups = groups;
    match cap {
        Some(n) => {
            let ghost nv = n@;
            let mut g: Vec<char> = Vec::new();
            g.push('@');
            let mut m = n;
            g.append(&mut m);
            assert(g@ =~= seq!['@'] + nv);
            let ghost before = groups@;
            groups.push(g);
            assert(chars_seqs(groups@) =~= chars_seqs(before).push(seq!['@'] + nv));
        },
        None => {},
    }
    (strings_of(groups), strings_of(preds))
}

} // verus!
