//! A roster of students and their grades, keyed by name. Adding an existing
//! name overwrites its grade. Queries report the distinct grades in use, the
//! students at a given grade, and their names in lexicographic order.

use vstd::prelude::*;

verus! {

/// The grade recorded for name `n`; `None` when the name is absent.
pub open spec fn grade_lookup(s: Seq<(String, u32)>, n: Seq<char>) -> Option<u32>
    decreases s.len(),
{
    if s.len() == 0 {
        None
    } else if s.last().0@ == n {
        Some(s.last().1)
    } else {
        grade_lookup(s.drop_last(), n)
    }
}

/// No two entries share a name.
pub open spec fn names_distinct(s: Seq<(String, u32)>) -> bool {
    forall|i: int, j: int| 0 <= i < j < s.len() ==> s[i].0@ != s[j].0@
}

/// The entries whose grade is `g`, in roster order.
pub open spec fn entries_with_grade(s: Seq<(String, u32)>, g: u32) -> Seq<(String, u32)>
    decreases s.len(),
{
    if s.len() == 0 {
        Seq::empty()
    } else if s.last().1 == g {
        entries_with_grade(s.drop_last(), g).push(s.last())
    } else {
        entries_with_grade(s.drop_last(), g)
    }
}

/// Strict lexicographic order on names, by unicode scalar value, with a
/// proper prefix ordered first.
pub open spec fn lex_lt(a: Seq<char>, b: Seq<char>) -> bool
    decreases a.len(),
{
    if b.len() == 0 {
        false
    } else if a.len() == 0 {
        true
    } else if a[0] == b[0] {
        lex_lt(a.drop_first(), b.drop_first())
    } else {
        (a[0] as u32) < (b[0] as u32)
    }
}

/// The names of a list of students, in order.
pub open spec fn names_of(v: Seq<String>) -> Seq<Seq<char>> {
    v.map_values(|s: String| s@)
}

/// A list of names in strictly increasing lexicographic order.
pub open spec fn names_sorted(v: Seq<String>) -> bool {
    forall|i: int, j: int| 0 <= i < j < v.len() ==> lex_lt(v[i]@, v[j]@)
}

/// Two characters with the same unicode scalar value are the same
/// character.
proof fn lemma_char_inj(a: char, b: char)
    requires
        a as u32 == b as u32,
    ensures
        a == b,
{
}

proof fn lemma_grade_at_index(s: Seq<(String, u32)>, i: int)
    requires
        names_distinct(s),
        0 <= i < s.len(),
    ensures
        grade_lookup(s, s[i].0@) == Some(s[i].1),
    decreases s.len(),
{
    if i < s.len() - 1 {
        assert(names_distinct(s.drop_last()));
        assert(s.drop_last()[i] == s[i]);
        lemma_grade_at_index(s.drop_last(), i);
    }
}

proof fn lemma_grade_absent(s: Seq<(String, u32)>, n: Seq<char>)
    requires
        forall|j: int| 0 <= j < s.len() ==> s[j].0@ != n,
    ensures
        grade_lookup(s, n) is None,
    decreases s.len(),
{
    if s.len() > 0 {
        lemma_grade_absent(s.drop_last(), n);
    }
}

/// Overwriting the grade at index `i` keeps the names distinct and changes
/// only that name's lookup.
proof fn lemma_grade_update(s: Seq<(String, u32)>, i: int, e: (String, u32))
    requires
        names_distinct(s),
        0 <= i < s.len(),
        e.0@ == s[i].0@,
    ensures
        names_distinct(s.update(i, e)),
        forall|n: Seq<char>|
            grade_lookup(s.update(i, e), n) == if n == s[i].0@ {
                Some(e.1)
            } else {
                grade_lookup(s, n)
            },
    decreases s.len(),
{
    let t = s.update(i, e);
    if i == s.len() - 1 {
        assert(t.drop_last() =~= s.drop_last());
        assert forall|n: Seq<char>|
            grade_lookup(t, n) == (if n == s[i].0@ {
                Some(e.1)
            } else {
                grade_lookup(s, n)
            }) by {
            if n != s[i].0@ {
                assert(grade_lookup(t, n) == grade_lookup(t.drop_last(), n));
                assert(grade_lookup(s, n) == grade_lookup(s.drop_last(), n));
            }
        }
    } else {
        assert(names_distinct(s.drop_last()));
        assert(s.drop_last()[i] == s[i]);
        lemma_grade_update(s.drop_last(), i, e);
        assert(t.drop_last() =~= s.drop_last().update(i, e));
        assert(t.last() == s.last());
        assert forall|n: Seq<char>|
            grade_lookup(t, n) == (if n == s[i].0@ {
                Some(e.1)
            } else {
                grade_lookup(s, n)
            }) by {
            if s.last().0@ == n {
                assert(n != s[i].0@);
            } else {
                assert(grade_lookup(t, n) == grade_lookup(t.drop_last(), n));
                assert(grade_lookup(s, n) == grade_lookup(s.drop_last(), n));
            }
        }
    }
}

/// Appending an entry for a fresh name keeps the names distinct and changes
/// only that name's lookup.
proof fn lemma_grade_push(s: Seq<(String, u32)>, e: (String, u32))
    requires
        names_distinct(s),
        forall|j: int| 0 <= j < s.len() ==> s[j].0@ != e.0@,
    ensures
        names_distinct(s.push(e)),
        forall|n: Seq<char>|
            grade_lookup(s.push(e), n) == if n == e.0@ {
                Some(e.1)
            } else {
                grade_lookup(s, n)
            },
{
    let t = s.push(e);
    assert(t.drop_last() =~= s);
    assert(forall|i: int, j: int| 0 <= i < j < t.len() ==> t[i].0@ != t[j].0@) by {
        assert(forall|i: int| 0 <= i < s.len() ==> t[i] == s[i]);
    }
}

/// The selection of one grade keeps every matching entry, nothing else, and
/// keeps names distinct.
proof fn lemma_with_grade_props(s: Seq<(String, u32)>, g: u32)
    requires
        names_distinct(s),
    ensures
        ({
            let w = entries_with_grade(s, g);
            &&& names_distinct(w)
            &&& forall|k: int|
                0 <= k < w.len() ==> (#[trigger] w[k]).1 == g && grade_lookup(s, w[k].0@) == Some(
                    g,
                )
            &&& forall|n: Seq<char>|
                #[trigger] grade_lookup(s, n) == Some(g) ==> exists|k: int|
                    0 <= k < w.len() && (#[trigger] w[k]).0@ == n
        }),
    decreases s.len(),
{
    let w = entries_with_grade(s, g);
    if s.len() > 0 {
        let sd = s.drop_last();
        assert(names_distinct(sd));
        lemma_with_grade_props(sd, g);
        let wd = entries_with_grade(sd, g);
        assert forall|k: int| 0 <= k < wd.len() implies grade_lookup(s, wd[k].0@) == grade_lookup(
            sd,
            wd[k].0@,
        ) by {
            assert(grade_lookup(sd, wd[k].0@) == Some(g));
            if s.last().0@ == wd[k].0@ {
                let i = choose|i: int| 0 <= i < sd.len() && sd[i].0@ == wd[k].0@
                    && grade_lookup(sd, wd[k].0@) == Some(sd[i].1);
                lemma_lookup_gives_index(sd, wd[k].0@);
                assert(false);
            }
        }
        if s.last().1 == g {
            assert(w == wd.push(s.last()));
            assert forall|i: int, j: int| 0 <= i < j < w.len() implies w[i].0@ != w[j].0@ by {
                if j == w.len() - 1 {
                    assert(w[i] == wd[i]);
                    assert(grade_lookup(sd, wd[i].0@) == Some(g));
                    if wd[i].0@ == s.last().0@ {
                        lemma_lookup_gives_index(sd, wd[i].0@);
                        assert(false);
                    }
                } else {
                    assert(w[i] == wd[i] && w[j] == wd[j]);
                }
            }
            assert forall|n: Seq<char>| #[trigger]
                grade_lookup(s, n) == Some(g) implies exists|k: int|
                0 <= k < w.len() && (#[trigger] w[k]).0@ == n by {
                if s.last().0@ == n {
                    assert(w[w.len() - 1].0@ == n);
                } else {
                    assert(grade_lookup(sd, n) == Some(g));
                    let k = choose|k: int| 0 <= k < wd.len() && wd[k].0@ == n;
                    assert(w[k].0@ == n);
                }
            }
        } else {
            assert(w == wd);
            assert forall|n: Seq<char>| #[trigger]
                grade_lookup(s, n) == Some(g) implies exists|k: int|
                0 <= k < w.len() && (#[trigger] w[k]).0@ == n by {
                if s.last().0@ == n {
                    assert(grade_lookup(s, n) == Some(s.last().1));
                    assert(false);
                } else {
                    assert(grade_lookup(sd, n) == Some(g));
                }
            }
        }
    }
}

/// A name whose lookup succeeds appears at some index.
proof fn lemma_lookup_gives_index(s: Seq<(String, u32)>, n: Seq<char>)
    requires
        grade_lookup(s, n) is Some,
    ensures
        exists|i: int| 0 <= i < s.len() && (#[trigger] s[i]).0@ == n,
    decreases s.len(),
{
    if s.len() > 0 {
        if s.last().0@ == n {
            assert(s[s.len() - 1].0@ == n);
        } else {
            lemma_lookup_gives_index(s.drop_last(), n);
            let i = choose|i: int| 0 <= i < s.drop_last().len() && s.drop_last()[i].0@ == n;
            assert(s[i].0@ == n);
        }
    }
}

/// The order ignores a common prefix.
proof fn lemma_lex_lt_skip(a: Seq<char>, b: Seq<char>, i: int)
    requires
        0 <= i <= a.len(),
        i <= b.len(),
        forall|j: int| 0 <= j < i ==> a[j] == b[j],
    ensures
        lex_lt(a, b) == lex_lt(a.skip(i), b.skip(i)),
    decreases i,
{
    if i == 0 {
        assert(a.skip(0) =~= a);
        assert(b.skip(0) =~= b);
    } else {
        assert(a[0] == b[0]);
        lemma_lex_lt_skip(a.drop_first(), b.drop_first(), i - 1);
        assert(a.drop_first().skip(i - 1) =~= a.skip(i));
        assert(b.drop_first().skip(i - 1) =~= b.skip(i));
    }
}

/// The order is transitive.
proof fn lemma_lex_trans(a: Seq<char>, b: Seq<char>, c: Seq<char>)
    requires
        lex_lt(a, b),
        lex_lt(b, c),
    ensures
        lex_lt(a, c),
    decreases a.len(),
{
    if b.len() == 0 {
    } else if a.len() == 0 {
    } else if c.len() == 0 {
    } else {
        if a[0] == b[0] && b[0] == c[0] {
            lemma_lex_trans(a.drop_first(), b.drop_first(), c.drop_first());
        }
    }
}

/// Two names neither of which is below the other are equal.
proof fn lemma_lex_total(a: Seq<char>, b: Seq<char>)
    requires
        !lex_lt(a, b),
        !lex_lt(b, a),
    ensures
        a == b,
    decreases a.len(),
{
    if a.len() == 0 && b.len() == 0 {
        assert(a =~= b);
    } else if a.len() == 0 {
        assert(lex_lt(a, b));
    } else if b.len() == 0 {
        assert(lex_lt(b, a));
    } else {
        if a[0] != b[0] {
            assert(!((a[0] as u32) < (b[0] as u32)));
            assert(!((b[0] as u32) < (a[0] as u32)));
            lemma_char_inj(a[0], b[0]);
            assert(false);
        }
        assert(a[0] == b[0]);
        lemma_lex_total(a.drop_first(), b.drop_first());
        assert(a.len() == b.len()) by {
            assert(a.drop_first().len() == b.drop_first().len());
        }
        assert forall|k: int| 0 <= k < a.len() implies a[k] == b[k] by {
            if k > 0 {
                assert(a.drop_first()[k - 1] == a[k]);
                assert(b.drop_first()[k - 1] == b[k]);
            }
        }
        assert(a =~= b);
    }
}

/// Compares two names in the lexicographic order.
fn str_lt(a: &String, b: &String) -> (r: bool)
    ensures
        r == lex_lt(a@, b@),
{
    let astr = a.as_str();
    let bstr = b.as_str();
    let alen = astr.unicode_len();
    let blen = bstr.unicode_len();
    let mut i: usize = 0;
    while i < alen && i < blen
        invariant
            i <= alen,
            i <= blen,
            alen == a@.len(),
            blen == b@.len(),
            astr@ == a@,
            bstr@ == b@,
            forall|j: int| 0 <= j < i ==> a@[j] == b@[j],
        decreases alen - i,
    {
        let ca = astr.get_char(i);
        let cb = bstr.get_char(i);
        if (ca as u32) != (cb as u32) {
            proof {
                lemma_lex_lt_skip(a@, b@, i as int);
                assert(a@.skip(i as int)[0] == ca);
                assert(b@.skip(i as int)[0] == cb);
            }
            return (ca as u32) < (cb as u32);
        }
        i = i + 1;
    }
    proof {
        lemma_lex_lt_skip(a@, b@, i as int);
    }
    alen < blen
}

/// Inserts a fresh name into a sorted list, keeping it sorted.
fn insert_name_sorted(v: &mut Vec<String>, name: String)
    requires
        names_sorted(old(v)@),
        forall|j: int| 0 <= j < old(v)@.len() ==> (#[trigger] old(v)@[j])@ != name@,
    ensures
        names_sorted(final(v)@),
        final(v)@.len() == old(v)@.len() + 1,
        forall|n: Seq<char>|
            names_of(final(v)@).contains(n) <==> names_of(old(v)@).contains(n) || n == name@,
{
    let mut k: usize = 0;
    loop
        invariant
            k <= v@.len(),
            names_sorted(v@),
            v@ == old(v)@,
            forall|j: int| 0 <= j < k ==> lex_lt((#[trigger] v@[j])@, name@),
        ensures
            k <= v@.len(),
            v@ == old(v)@,
            forall|j: int| 0 <= j < k ==> lex_lt((#[trigger] v@[j])@, name@),
            k < v@.len() ==> !lex_lt(v@[k as int]@, name@),
        decreases v@.len() - k,
    {
        if k == v.len() {
            break;
        }
        if !str_lt(&v[k], &name) {
            break;
        }
        k = k + 1;
    }
    proof {
        if k < v@.len() {
            lemma_lex_total_guarded(v@[k as int]@, name@);
        }
    }
    let ghost pre = v@;
    let ghost gname = name;
    v.insert(k, name);
    proof {
        pre.insert_ensures(k as int, gname);
        assert forall|i: int, j: int| 0 <= i < j < v@.len() implies lex_lt(v@[i]@, v@[j]@) by {
            if j < k {
                assert(v@[i] == pre[i] && v@[j] == pre[j]);
            } else if j == k {
                assert(v@[i] == pre[i]);
                assert(lex_lt(pre[i]@, gname@));
            } else if i < k {
                assert(v@[i] == pre[i] && v@[j] == pre[j - 1]);
                assert(i < j - 1 || i == j - 1);
                if i == j - 1 {
                    assert(i == k && j == k + 1);
                    assert(false);
                }
            } else if i == k {
                assert(v@[j] == pre[j - 1]);
                assert(k <= j - 1);
                assert(!lex_lt(pre[k as int]@, gname@));
                assert(gname@ != pre[k as int]@);
                if !lex_lt(gname@, pre[k as int]@) {
                    lemma_lex_total(pre[k as int]@, gname@);
                    assert(false);
                }
                if j - 1 > k {
                    lemma_lex_trans(gname@, pre[k as int]@, pre[j - 1]@);
                }
            } else {
                assert(v@[i] == pre[i - 1] && v@[j] == pre[j - 1]);
            }
        }
        assert forall|n: Seq<char>|
            names_of(v@).contains(n) == (names_of(pre).contains(n) || n == gname@) by {
            if names_of(v@).contains(n) {
                let m = choose|m: int| 0 <= m < v@.len() && names_of(v@)[m] == n;
                if m < k {
                    assert(names_of(pre)[m] == n);
                } else if m == k {
                } else {
                    assert(names_of(pre)[m - 1] == n);
                }
            }
            if names_of(pre).contains(n) {
                let m = choose|m: int| 0 <= m < pre.len() && names_of(pre)[m] == n;
                if m < k {
                    assert(names_of(v@)[m] == n);
                } else {
                    assert(names_of(v@)[m + 1] == n);
                }
            }
            if n == gname@ {
                assert(names_of(v@)[k as int] == n);
            }
        }
    }
}

/// Either one name is below another, or above it, or they are equal: the
/// guard used when placing a fresh name.
proof fn lemma_lex_total_guarded(a: Seq<char>, b: Seq<char>)
    requires
        !lex_lt(a, b),
        a != b,
    ensures
        lex_lt(b, a),
{
    if !lex_lt(b, a) {
        lemma_lex_total(a, b);
    }
}

/// The roster: one grade per student name.
#[derive(Clone, Debug, PartialEq, Eq)]
pub struct School {
    /// `(name, grade)` pairs; names are unique.
    pub students: Vec<(String, u32)>,
}

impl School {
    /// The grade recorded for name `n`, if any.
    pub open spec fn grade_of(self, n: Seq<char>) -> Option<u32> {
        grade_lookup(self.students@, n)
    }

    /// Well-formedness: no two entries share a name.
    pub open spec fn wf(self) -> bool {
        names_distinct(self.students@)
    }

    /// An empty roster.
    pub fn new() -> (s: School)
        ensures
            s.wf(),
            s.students@.len() == 0,
            forall|n: Seq<char>| s.grade_of(n) is None,
    {
        School { students: Vec::new() }
    }

    /// The index of name `n`'s entry, if one exists.
    fn find_index(&self, name: &String) -> (r: Option<usize>)
        ensures
            match r {
                Some(i) => i < self.students@.len() && self.students@[i as int].0@ == name@,
                None => forall|j: int| 0 <= j < self.students@.len() ==> self.students@[j].0@
                    != name@,
            },
    {
        let mut i: usize = 0;
        while i < self.students.len()
            invariant
                i <= self.students@.len(),
                forall|j: int| 0 <= j < i ==> self.students@[j].0@ != name@,
            decreases self.students@.len() - i,
        {
            if self.students[i].0 == *name {
                return Some(i);
            }
            i = i + 1;
        }
        None
    }

    /// Records `grade` for `name`, overwriting any earlier grade.
    pub fn add(&mut self, name: String, grade: u32)
        requires
            old(self).wf(),
        ensures
            final(self).wf(),
            final(self).grade_of(name@) == Some(grade),
            forall|n: Seq<char>|
                n != name@ ==> final(self).grade_of(n) == old(self).grade_of(n),
    {
        match self.find_index(&name) {
            Some(i) => {
                proof {
                    lemma_grade_update(self.students@, i as int, (name, grade));
                }
                self.students[i] = (name, grade);
            },
            None => {
                proof {
                    lemma_grade_push(self.students@, (name, grade));
                }
                self.students.push((name, grade));
            },
        }
    }

    /// The distinct grades in use, in increasing order.
    pub fn grades(&self) -> (r: Vec<u32>)
        ensures
            forall|i: int, j: int| 0 <= i < j < r@.len() ==> r@[i] < r@[j],
            forall|g: u32|
                #[trigger] r@.contains(g) <==> exists|k: int|
                    0 <= k < self.students@.len() && (#[trigger] self.students@[k]).1 == g,
    {
        let mut out: Vec<u32> = Vec::new();
        let mut i: usize = 0;
        while i < self.students.len()
            invariant
                i <= self.students@.len(),
                forall|p: int, q: int| 0 <= p < q < out@.len() ==> out@[p] < out@[q],
                forall|g: u32|
                    #[trigger] out@.contains(g) <==> exists|k: int|
                        0 <= k < i && (#[trigger] self.students@[k]).1 == g,
            decreases self.students@.len() - i,
        {
            insert_grade_sorted(&mut out, self.students[i].1);
            i = i + 1;
        }
        out
    }

    /// The students whose grade is `grade`, in roster order.
    pub fn find_student(&self, grade: u32) -> (r: Vec<(String, u32)>)
        ensures
            r@ == entries_with_grade(self.students@, grade),
    {
        let mut out: Vec<(String, u32)> = Vec::new();
        let mut i: usize = 0;
        while i < self.students.len()
            invariant
                i <= self.students@.len(),
                out@ == entries_with_grade(self.students@.take(i as int), grade),
            decreases self.students@.len() - i,
        {
            let ghost taken = self.students@.take(i as int);
            proof {
                assert(self.students@.take(i + 1).drop_last() =~= taken);
                assert(self.students@.take(i + 1).last() == self.students@[i as int]);
            }
            if self.students[i].1 == grade {
                let name = self.students[i].0.clone();
                let g = self.students[i].1;
                out.push((name, g));
            }
            i = i + 1;
        }
        proof {
            assert(self.students@.take(self.students@.len() as int) =~= self.students@);
        }
        out
    }

    /// The names of the students whose grade is `grade`, in increasing
    /// lexicographic order.
    pub fn grade(&self, grade: u32) -> (r: Vec<String>)
        requires
            self.wf(),
        ensures
            names_sorted(r@),
            forall|n: Seq<char>|
                #[trigger] names_of(r@).contains(n) <==> self.grade_of(n) == Some(grade),
    {
        let matches = self.find_student(grade);
        proof {
            lemma_with_grade_props(self.students@, grade);
        }
        let mut out: Vec<String> = Vec::new();
        let mut i: usize = 0;
        while i < matches.len()
            invariant
                i <= matches@.len(),
                matches@ == entries_with_grade(self.students@, grade),
                names_distinct(matches@),
                forall|k: int|
                    0 <= k < matches@.len() ==> (#[trigger] matches@[k]).1 == grade
                        && grade_lookup(self.students@, matches@[k].0@) == Some(grade),
                names_sorted(out@),
                forall|n: Seq<char>|
                    #[trigger] names_of(out@).contains(n) <==> exists|k: int|
                        0 <= k < i && (#[trigger] matches@[k]).0@ == n,
            decreases matches@.len() - i,
        {
            let name = matches[i].0.clone();
            proof {
                assert(name@ == matches@[i as int].0@);
                assert forall|j: int| 0 <= j < out@.len() implies (#[trigger] out@[j])@
                    != name@ by {
                    if out@[j]@ == name@ {
                        assert(names_of(out@)[j] == name@);
                        assert(names_of(out@).contains(name@));
                        let k = choose|k: int| 0 <= k < i && matches@[k].0@ == name@;
                        assert(matches@[k].0@ == matches@[i as int].0@);
                        assert(false);
                    }
                }
            }
            insert_name_sorted(&mut out, name);
            i = i + 1;
        }
        proof {
            assert forall|n: Seq<char>| #[trigger]
                names_of(out@).contains(n) == (self.grade_of(n) == Some(grade)) by {
                if names_of(out@).contains(n) {
                    let k = choose|k: int| 0 <= k < matches@.len() && matches@[k].0@ == n;
                    assert(grade_lookup(self.students@, n) == Some(grade));
                }
                if self.grade_of(n) == Some(grade) {
                    let k = choose|k: int|
                        0 <= k < matches@.len() && (#[trigger] matches@[k]).0@ == n;
                }
            }
        }
        out
    }
}

/// Inserts a grade into a strictly sorted list, keeping it sorted and
/// ignoring a grade already present.
fn insert_grade_sorted(v: &mut Vec<u32>, g: u32)
    requires
        forall|p: int, q: int| 0 <= p < q < old(v)@.len() ==> old(v)@[p] < old(v)@[q],
    ensures
        forall|p: int, q: int| 0 <= p < q < final(v)@.len() ==> final(v)@[p] < final(v)@[q],
        forall|x: u32| #[trigger] final(v)@.contains(x) <==> old(v)@.contains(x) || x == g,
{
    let mut k: usize = 0;
    loop
        invariant
            k <= v@.len(),
            v@ == old(v)@,
            forall|p: int, q: int| 0 <= p < q < v@.len() ==> v@[p] < v@[q],
            forall|j: int| 0 <= j < k ==> v@[j] < g,
        ensures
            k <= v@.len(),
            v@ == old(v)@,
            forall|j: int| 0 <= j < k ==> v@[j] < g,
            k < v@.len() ==> v@[k as int] >= g,
        decreases v@.len() - k,
    {
        if k == v.len() {
            break;
        }
        if v[k] >= g {
            break;
        }
        k = k + 1;
    }
    if k < v.len() && v[k] == g {
        proof {
            assert(v@.contains(g)) by {
                assert(v@[k as int] == g);
            }
            assert(forall|x: u32| v@.contains(x) ==> (old(v)@.contains(x) || x == g));
        }
        return ;
    }
    let ghost pre = v@;
    v.insert(k, g);
    proof {
        pre.insert_ensures(k as int, g);
        assert forall|p: int, q: int| 0 <= p < q < v@.len() implies v@[p] < v@[q] by {
            if q < k {
            } else if q == k {
                assert(v@[p] == pre[p]);
            } else if p < k {
                assert(v@[q] == pre[q - 1]);
                if p == q - 1 {
                    assert(false);
                }
            } else if p == k {
                assert(v@[q] == pre[q - 1]);
                assert(pre[k as int] > g || k == pre.len());
                assert(k <= q - 1 < pre.len());
                if q - 1 > k {
                    assert(pre[k as int] < pre[q - 1]);
                }
            } else {
                assert(v@[p] == pre[p - 1] && v@[q] == pre[q - 1]);
            }
        }
        assert forall|x: u32| #[trigger]
            v@.contains(x) == (pre.contains(x) || x == g) by {
            if v@.contains(x) {
                let m = choose|m: int| 0 <= m < v@.len() && v@[m] == x;
                if m < k {
                    assert(pre[m] == x);
                } else if m > k {
                    assert(pre[m - 1] == x);
                }
            }
            if pre.contains(x) {
                let m = choose|m: int| 0 <= m < pre.len() && pre[m] == x;
                if m < k {
                    assert(v@[m] == x);
                } else {
                    assert(v@[m + 1] == x);
                }
            }
            if x == g {
                assert(v@[k as int] == x);
            }
        }
    }
}

} // verus!
