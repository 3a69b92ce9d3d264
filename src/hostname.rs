//! Hostname rules: which strings name a subdomain of a target domain, and
//! how subdomain names are found inside free text.
use crate::names::views;
use vstd::prelude::*;

verus! {

/// A lower-case letter or a digit.
pub open spec fn is_alnum(c: char) -> bool {
    ('a' <= c && c <= 'z') || ('0' <= c && c <= '9')
}

/// A character that may appear in a hostname: a letter, digit, hyphen or dot.
pub open spec fn is_host_char(c: char) -> bool {
    is_alnum(c) || c == '-' || c == '.'
}

/// A dotted run of labels: host characters only, alphanumeric at both ends,
/// and every dot between two alphanumerics (no empty label, no label that
/// starts or ends with a hyphen).
pub open spec fn is_label_path(p: Seq<char>) -> bool {
    &&& p.len() > 0
    &&& is_alnum(p[0])
    &&& is_alnum(p[p.len() - 1])
    &&& forall|i: int| 0 <= i < p.len() ==> #[trigger] is_host_char(p[i])
    &&& forall|i: int|
        0 < i < p.len() - 1 && #[trigger] p[i] == '.' ==> is_alnum(p[i - 1]) && is_alnum(p[i + 1])
}

/// `s` is a valid hostname that equals `d` or is a labelled child of `d`.
pub open spec fn is_subdomain_of(s: Seq<char>, d: Seq<char>) -> bool {
    &&& is_label_path(s)
    &&& (s == d || (s.len() > d.len() && s[s.len() - d.len() - 1] == '.' && s.subrange(
        s.len() - d.len(),
        s.len() as int,
    ) == d))
}

/// `t` without its leading non-alphanumeric characters.
pub open spec fn trim_front(t: Seq<char>) -> Seq<char>
    decreases t.len(),
{
    if t.len() > 0 && !is_alnum(t[0]) {
        trim_front(t.drop_first())
    } else {
        t
    }
}

/// `t` without its trailing non-alphanumeric characters.
pub open spec fn trim_back(t: Seq<char>) -> Seq<char>
    decreases t.len(),
{
    if t.len() > 0 && !is_alnum(t[t.len() - 1]) {
        trim_back(t.drop_last())
    } else {
        t
    }
}

/// A run of host characters with the dots and hyphens at its edges removed.
pub open spec fn trimmed(t: Seq<char>) -> Seq<char> {
    trim_back(trim_front(t))
}

/// What one run of host characters contributes: its trimmed form, when that
/// is a subdomain of `d`.
pub open spec fn hit(t: Seq<char>, d: Seq<char>) -> Seq<Seq<char>> {
    if is_subdomain_of(trimmed(t), d) {
        seq![trimmed(t)]
    } else {
        seq![]
    }
}

/// The subdomains of `d` named in `c`, in order of appearance, where `cur`
/// is the run of host characters that immediately precedes `c`.
pub open spec fn scan(c: Seq<char>, cur: Seq<char>, d: Seq<char>) -> Seq<Seq<char>>
    decreases c.len(),
{
    if c.len() == 0 {
        hit(cur, d)
    } else if is_host_char(c[0]) {
        scan(c.drop_first(), cur.push(c[0]), d)
    } else {
        hit(cur, d) + scan(c.drop_first(), seq![], d)
    }
}

/// The subdomains of `d` named in the text `c`, in order of appearance: each
/// maximal run of host characters, trimmed of edge dots and hyphens, that is a
/// subdomain of `d`.
pub open spec fn found_in(c: Seq<char>, d: Seq<char>) -> Seq<Seq<char>> {
    scan(c, seq![], d)
}

/// The characters of a string, in order.
pub fn chars_of(s: &str) -> (r: Vec<char>)
    ensures
        r@ == s@,
{
    let mut v: Vec<char> = Vec::new();
    for c in it: s.chars()
        invariant
            v@ == it.seq().subrange(0, it.index() as int),
    {
        v.push(c);
    }
    v
}

fn is_alnum_exec(c: char) -> (r: bool)
    ensures
        r == is_alnum(c),
{
    ('a' <= c && c <= 'z') || ('0' <= c && c <= '9')
}

fn is_host_char_exec(c: char) -> (r: bool)
    ensures
        r == is_host_char(c),
{
    is_alnum_exec(c) || c == '-' || c == '.'
}

/// Whether `c[a..b]` is a dotted run of labels.
fn check_label_path(c: &Vec<char>, a: usize, b: usize) -> (r: bool)
    requires
        a <= b <= c@.len(),
    ensures
        r == is_label_path(c@.subrange(a as int, b as int)),
{
    let ghost p = c@.subrange(a as int, b as int);
    if a == b {
        return false;
    }
    if !is_alnum_exec(c[a]) || !is_alnum_exec(c[b - 1]) {
        return false;
    }
    let mut i: usize = a;
    while i < b
        invariant
            a <= i <= b <= c@.len(),
            a < b,
            p == c@.subrange(a as int, b as int),
            is_alnum(p[0]),
            is_alnum(p[p.len() - 1]),
            forall|k: int| 0 <= k < i - a ==> #[trigger] is_host_char(p[k]),
            forall|k: int|
                0 < k < p.len() - 1 && k < i - a && #[trigger] p[k] == '.' ==> is_alnum(p[k - 1])
                    && is_alnum(p[k + 1]),
        decreases b - i,
    {
        let ch = c[i];
        assert(ch == p[i - a]);
        if !is_host_char_exec(ch) {
            return false;
        }
        if ch == '.' && i > a && i + 1 < b {
            if !is_alnum_exec(c[i - 1]) || !is_alnum_exec(c[i + 1]) {
                assert(p[i - a - 1] == c@[i - 1]);
                assert(p[i - a + 1] == c@[i + 1]);
                return false;
            }
        }
        assert(ch == '.' && 0 < i - a < p.len() - 1 ==> is_alnum(p[i - a - 1]) && is_alnum(
            p[i - a + 1],
        ));
        i = i + 1;
    }
    true
}

/// Whether `c[a..b]` equals `d`.
fn range_equals(c: &Vec<char>, a: usize, b: usize, d: &Vec<char>) -> (r: bool)
    requires
        a <= b <= c@.len(),
    ensures
        r == (c@.subrange(a as int, b as int) == d@),
{
    if b - a != d.len() {
        return false;
    }
    let mut i: usize = 0;
    while i < d.len()
        invariant
            a <= b <= c@.len(),
            b - a == d@.len(),
            i <= d@.len(),
            forall|k: int| 0 <= k < i ==> c@[a + k] == d@[k],
        decreases d@.len() - i,
    {
        if c[a + i] != d[i] {
            assert(c@.subrange(a as int, b as int)[i as int] != d@[i as int]);
            return false;
        }
        i = i + 1;
    }
    assert(c@.subrange(a as int, b as int) =~= d@);
    true
}

/// Whether `c[a..b]` is a subdomain of `d`.
pub fn check_subdomain(c: &Vec<char>, a: usize, b: usize, d: &Vec<char>) -> (r: bool)
    requires
        a <= b <= c@.len(),
    ensures
        r == is_subdomain_of(c@.subrange(a as int, b as int), d@),
{
    let ghost s = c@.subrange(a as int, b as int);
    if !check_label_path(c, a, b) {
        return false;
    }
    if range_equals(c, a, b, d) {
        return true;
    }
    let n: usize = b - a;
    if n <= d.len() {
        return false;
    }
    let dot: usize = b - d.len() - 1;
    assert(s[s.len() - d@.len() - 1] == c@[dot as int]);
    if c[dot] != '.' {
        return false;
    }
    let r = range_equals(c, b - d.len(), b, d);
    assert(s.subrange(s.len() - d@.len(), s.len() as int) =~= c@.subrange(
        b - d@.len(),
        b as int,
    ));
    r
}

/// The trimmed form of `c[start..end]`, when it is a subdomain of `d`.
fn hit_in(s: &str, c: &Vec<char>, start: usize, end: usize, d: &Vec<char>) -> (r: Option<String>)
    requires
        c@ == s@,
        start <= end <= c@.len(),
    ensures
        hit(c@.subrange(start as int, end as int), d@) == match r {
            Some(x) => seq![x@],
            None => Seq::<Seq<char>>::empty(),
        },
{
    let ghost t = c@.subrange(start as int, end as int);
    let mut a: usize = start;
    while a < end && !is_alnum_exec(c[a])
        invariant
            start <= a <= end <= c@.len(),
            trim_front(t) == trim_front(c@.subrange(a as int, end as int)),
        decreases end - a,
    {
        assert(c@.subrange(a as int, end as int).drop_first() =~= c@.subrange(a + 1, end as int));
        a = a + 1;
    }
    assert(trim_front(t) == c@.subrange(a as int, end as int));
    let mut b: usize = end;
    while b > a && !is_alnum_exec(c[b - 1])
        invariant
            start <= a <= b <= end <= c@.len(),
            trimmed(t) == trim_back(c@.subrange(a as int, b as int)),
        decreases b - a,
    {
        assert(c@.subrange(a as int, b as int).drop_last() =~= c@.subrange(a as int, b - 1));
        b = b - 1;
    }
    assert(trimmed(t) == c@.subrange(a as int, b as int));
    if check_subdomain(c, a, b, d) {
        let x = String::from_str(s.substring_char(a, b));
        Some(x)
    } else {
        None
    }
}

/// Every subdomain of `d` named in the text `s`, in order of appearance.
pub fn subdomains_in(s: &str, d: &str) -> (r: Vec<String>)
    ensures
        views(r@) == found_in(s@, d@),
{
    let c = chars_of(s);
    let dc = chars_of(d);
    let mut out: Vec<String> = Vec::new();
    let mut start: usize = 0;
    let mut i: usize = 0;
    assert(c@.subrange(0, c@.len() as int) =~= c@);
    assert(c@.subrange(0, 0) =~= Seq::<char>::empty());
    assert(views(out@) + found_in(s@, d@) =~= found_in(s@, d@));
    while i < c.len()
        invariant
            c@ == s@,
            dc@ == d@,
            start <= i <= c@.len(),
            views(out@) + scan(c@.subrange(i as int, c@.len() as int), c@.subrange(start as int, i as int), d@)
                == found_in(s@, d@),
        decreases c@.len() - i,
    {
        let ghost rest = c@.subrange(i as int, c@.len() as int);
        let ghost cur = c@.subrange(start as int, i as int);
        assert(rest.drop_first() =~= c@.subrange(i + 1, c@.len() as int));
        assert(rest[0] == c@[i as int]);
        if is_host_char_exec(c[i]) {
            assert(cur.push(c@[i as int]) =~= c@.subrange(start as int, i + 1));
            i = i + 1;
        } else {
            let h = hit_in(s, &c, start, i, &dc);
            let ghost before = views(out@);
            match h {
                Some(x) => {
                    out.push(x);
                    assert(views(out@) =~= before + hit(cur, d@));
                },
                None => {
                    assert(before + hit(cur, d@) =~= before);
                },
            }
            assert(c@.subrange(i + 1, i + 1) =~= Seq::<char>::empty());
            assert(views(out@) + scan(c@.subrange(i + 1, c@.len() as int), seq![], d@) =~= before
                + scan(rest, cur, d@));
            i = i + 1;
            start = i;
        }
    }
    let h = hit_in(s, &c, start, i, &dc);
    let ghost before = views(out@);
    assert(c@.subrange(i as int, c@.len() as int) =~= Seq::<char>::empty());
    match h {
        Some(x) => {
            out.push(x);
            assert(views(out@) =~= before + hit(c@.subrange(start as int, i as int), d@));
        },
        None => {
            assert(before + hit(c@.subrange(start as int, i as int), d@) =~= before);
        },
    }
    out
}

} // verus!
