//! The outputs of a build: output names mapped to store paths, kept in strict
//! lexicographic order of the names whatever order they arrived in.
use vstd::prelude::*;

use vstd::utf8::{decode_utf8, valid_utf8};

use crate::path::{StorePath, StorePathView};

verus! {

/// The string that `String::from_utf8_lossy` makes of some bytes.
pub uninterp spec fn lossy_utf8(bytes: Seq<u8>) -> Seq<char>;

/// Relies on std's `String::from_utf8_lossy`: its result depends on the bytes
/// alone, and on valid UTF-8 it is exactly the characters the bytes encode.
#[verifier::external_body]
fn decode_lossy(bytes: &[u8]) -> (r: String)
    ensures
        r@ == lossy_utf8(bytes@),
        valid_utf8(bytes@) ==> r@ == decode_utf8(bytes@),
{
    String::from_utf8_lossy(bytes).into_owned()
}

/// Lexicographic order on names, character by character, as `String`
/// compares them (UTF-8 byte order is code point order).
pub open spec fn lex_lt(a: Seq<char>, b: Seq<char>) -> bool
    decreases a.len(),
{
    if b.len() == 0 {
        false
    } else if a.len() == 0 {
        true
    } else if a[0] == b[0] {
        lex_lt(a.drop_first(), b.drop_first())
    } else {
        a[0] < b[0]
    }
}

/// Each name is strictly below every later one.
pub open spec fn strictly_sorted(s: Seq<Seq<char>>) -> bool {
    forall|i: int, j: int| 0 <= i < j < s.len() ==> lex_lt(#[trigger] s[i], #[trigger] s[j])
}

pub proof fn lemma_lex_irreflexive(a: Seq<char>)
    ensures
        !lex_lt(a, a),
    decreases a.len(),
{
    if a.len() > 0 {
        lemma_lex_irreflexive(a.drop_first());
    }
}

pub proof fn lemma_lex_asymmetric(a: Seq<char>, b: Seq<char>)
    ensures
        !(lex_lt(a, b) && lex_lt(b, a)),
    decreases a.len(),
{
    if a.len() > 0 && b.len() > 0 && a[0] == b[0] {
        lemma_lex_asymmetric(a.drop_first(), b.drop_first());
    }
}

pub proof fn lemma_lex_total(a: Seq<char>, b: Seq<char>)
    ensures
        a == b || lex_lt(a, b) || lex_lt(b, a),
    decreases a.len(),
{
    if a.len() > 0 && b.len() > 0 && a[0] == b[0] {
        lemma_lex_total(a.drop_first(), b.drop_first());
        if a.drop_first() == b.drop_first() {
            assert(a =~= seq![a[0]] + a.drop_first());
            assert(b =~= seq![b[0]] + b.drop_first());
        }
    } else if a.len() == 0 && b.len() == 0 {
        assert(a =~= b);
    }
}

pub proof fn lemma_lex_transitive(a: Seq<char>, b: Seq<char>, c: Seq<char>)
    requires
        lex_lt(a, b),
        lex_lt(b, c),
    ensures
        lex_lt(a, c),
    decreases a.len(),
{
    if a.len() > 0 && b.len() > 0 && c.len() > 0 && a[0] == b[0] && b[0] == c[0] {
        lemma_lex_transitive(a.drop_first(), b.drop_first(), c.drop_first());
    }
}

/// Two strictly sorted sequences of the same names are the same sequence.
pub proof fn lemma_sorted_unique(a: Seq<Seq<char>>, b: Seq<Seq<char>>)
    requires
        strictly_sorted(a),
        strictly_sorted(b),
        a.to_set() == b.to_set(),
    ensures
        a == b,
    decreases a.len(),
{
    if a.len() == 0 {
        if b.len() > 0 {
            assert(b.to_set().contains(b[0]));
        }
        assert(a =~= b);
    } else {
        assert(a.to_set().contains(a[0]));
        let j = choose|j: int| 0 <= j < b.len() && b[j] == a[0];
        assert(b.len() > 0);
        assert(b.to_set().contains(b[0]));
        let k = choose|k: int| 0 <= k < a.len() && a[k] == b[0];
        if j > 0 {
            assert(lex_lt(b[0], b[j]));
            if k > 0 {
                assert(lex_lt(a[0], a[k]));
                lemma_lex_asymmetric(a[0], b[0]);
            } else {
                lemma_lex_irreflexive(a[0]);
            }
        }
        assert(a[0] == b[0]);
        let ta = a.drop_first();
        let tb = b.drop_first();
        assert forall|x: Seq<char>| ta.to_set().contains(x) implies tb.to_set().contains(x) by {
            let i = choose|i: int| 0 <= i < ta.len() && ta[i] == x;
            assert(a[i + 1] == x);
            assert(lex_lt(a[0], x));
            lemma_lex_irreflexive(x);
            assert(a.to_set().contains(x));
            let m = choose|m: int| 0 <= m < b.len() && b[m] == x;
            assert(m != 0);
            assert(tb[m - 1] == x);
        }
        assert forall|x: Seq<char>| tb.to_set().contains(x) implies ta.to_set().contains(x) by {
            let i = choose|i: int| 0 <= i < tb.len() && tb[i] == x;
            assert(b[i + 1] == x);
            assert(lex_lt(b[0], x));
            lemma_lex_irreflexive(x);
            assert(b.to_set().contains(x));
            let m = choose|m: int| 0 <= m < a.len() && a[m] == x;
            assert(m != 0);
            assert(ta[m - 1] == x);
        }
        assert(ta.to_set() =~= tb.to_set());
        lemma_sorted_unique(ta, tb);
        assert(a =~= seq![a[0]] + ta);
        assert(b =~= seq![b[0]] + tb);
    }
}

/// The path of the last of the deliveries `d` that is named `n`, if any is.
pub open spec fn last_delivered(d: Seq<(Seq<char>, StorePathView)>, n: Seq<char>) -> Option<
    StorePathView,
>
    decreases d.len(),
{
    if d.len() == 0 {
        None
    } else if d.last().0 == n {
        Some(d.last().1)
    } else {
        last_delivered(d.drop_last(), n)
    }
}

/// Whether name `a` sorts strictly before name `b`.
pub fn name_lt(a: &str, b: &str) -> (r: bool)
    ensures
        r == lex_lt(a@, b@),
{
    let sa = a;
    let sb = b;
    let na = sa.unicode_len();
    let nb = sb.unicode_len();
    let mut i: usize = 0;
    assert(a@.skip(0) =~= a@ && b@.skip(0) =~= b@);
    while i < na && i < nb && sa.get_char(i) == sb.get_char(i)
        invariant
            na == a@.len(),
            nb == b@.len(),
            sa@ == a@,
            sb@ == b@,
            i <= na,
            i <= nb,
            lex_lt(a@, b@) == lex_lt(a@.skip(i as int), b@.skip(i as int)),
        decreases na - i,
    {
        proof {
            assert(a@.skip(i as int).drop_first() =~= a@.skip(i + 1));
            assert(b@.skip(i as int).drop_first() =~= b@.skip(i + 1));
        }
        i = i + 1;
    }
    if i == nb {
        false
    } else if i == na {
        true
    } else {
        sa.get_char(i) < sb.get_char(i)
    }
}

/// Output names mapped to store paths, in strict lexicographic order of the
/// names.
pub struct OutputMap {
    entries: Vec<(String, StorePath)>,
}

impl View for OutputMap {
    type V = Seq<(Seq<char>, StorePathView)>;

    closed spec fn view(&self) -> Seq<(Seq<char>, StorePathView)> {
        self.entries@.map_values(|e: (String, StorePath)| (e.0@, e.1@))
    }
}

impl OutputMap {
    /// The names, in the order the map holds them.
    pub open spec fn names(&self) -> Seq<Seq<char>> {
        self@.map_values(|e: (Seq<char>, StorePathView)| e.0)
    }

    /// The map from each name to its path.
    pub open spec fn as_map(&self) -> Map<Seq<char>, StorePathView> {
        Map::new(
            |n: Seq<char>| self.names().contains(n),
            |n: Seq<char>| self@[self.names().index_of(n)].1,
        )
    }

    /// The names are in strict lexicographic order.
    pub open spec fn wf(&self) -> bool {
        strictly_sorted(self.names())
    }

    /// A map with no outputs.
    pub fn new() -> (r: OutputMap)
        ensures
            r.wf(),
            r@.len() == 0,
    {
        OutputMap { entries: Vec::new() }
    }

    /// The number of outputs.
    pub fn len(&self) -> (r: usize)
        ensures
            r == self@.len(),
    {
        self.entries.len()
    }

    /// Adds an output, or replaces the path of an output of that name; the
    /// names stay in strict lexicographic order.
    pub fn insert(&mut self, name: String, path: StorePath)
        requires
            old(self).wf(),
        ensures
            final(self).wf(),
            final(self).names().to_set() == old(self).names().to_set().insert(name@),
            forall|n: Seq<char>|
                n != name@ && old(self).names().contains(n) ==> #[trigger] final(self).as_map()[n]
                    == old(self).as_map()[n],
            final(self).as_map()[name@] == path@,
    {
        let ghost old_names = self.names();
        let n = self.entries.len();
        let mut i: usize = 0;
        while i < n && name_lt(self.entries[i].0.as_str(), name.as_str())
            invariant
                n == self.entries@.len(),
                i <= n,
                self.names() == old_names,
                strictly_sorted(old_names),
                forall|j: int| 0 <= j < i ==> lex_lt(#[trigger] old_names[j], name@),
            decreases n - i,
        {
            i = i + 1;
        }
        let ghost entry = (name@, path@);
        if i < n && self.entries[i].0 == name {
            self.entries.remove(i);
            self.entries.insert(i, (name, path));
            proof {
                assert(self@ =~= old(self)@.update(i as int, entry));
                assert(self.names() =~= old_names.update(i as int, entry.0));
                assert(old_names[i as int] == entry.0);
                assert(self.names() =~= old_names);
                assert(self.names().to_set() =~= old_names.to_set().insert(entry.0));
                assert forall|m: Seq<char>|
                    m != entry.0 && old_names.contains(m) implies #[trigger] self.as_map()[m]
                    == old(self).as_map()[m] by {
                    let k = old_names.index_of(m);
                    assert(k != i);
                }
                assert(self.names().contains(entry.0)) by {
                    assert(self.names()[i as int] == entry.0);
                }
                let k = self.names().index_of(entry.0);
                if k != i {
                    if k < i {
                        assert(lex_lt(self.names()[k], self.names()[i as int]));
                    } else {
                        assert(lex_lt(self.names()[i as int], self.names()[k]));
                    }
                    lemma_lex_irreflexive(entry.0);
                }
            }
        } else {
            proof {
                if i < n {
                    lemma_lex_total(old_names[i as int], name@);
                }
            }
            self.entries.insert(i, (name, path));
            proof {
                assert(self@ =~= old(self)@.insert(i as int, entry));
                assert(self.names() =~= old_names.insert(i as int, entry.0));
                assert forall|a: int, b: int|
                    0 <= a < b < self.names().len() implies lex_lt(
                    #[trigger] self.names()[a],
                    #[trigger] self.names()[b],
                ) by {
                    if b < i {
                    } else if a < i && b == i {
                    } else if a < i {
                        assert(lex_lt(old_names[a], name@));
                        assert(lex_lt(name@, old_names[i as int]));
                        if b - 1 > i {
                            lemma_lex_transitive(name@, old_names[i as int], old_names[b - 1]);
                        }
                        lemma_lex_transitive(old_names[a], name@, old_names[b - 1]);
                    } else if a == i {
                        if b - 1 > i {
                            lemma_lex_transitive(name@, old_names[i as int], old_names[b - 1]);
                        }
                    } else {
                        assert(self.names()[a] == old_names[a - 1]);
                        assert(self.names()[b] == old_names[b - 1]);
                    }
                }
                assert(self.names().to_set() =~= old_names.to_set().insert(entry.0)) by {
                    assert forall|m: Seq<char>|
                        old_names.to_set().insert(entry.0).contains(m) implies self.names().contains(
                        m,
                    ) by {
                        if m != entry.0 {
                            let k = choose|k: int| 0 <= k < old_names.len() && old_names[k] == m;
                            if k < i {
                                assert(self.names()[k] == m);
                            } else {
                                assert(self.names()[k + 1] == m);
                            }
                        } else {
                            assert(self.names()[i as int] == m);
                        }
                    }
                }
                assert forall|m: Seq<char>|
                    m != entry.0 && old_names.contains(m) implies #[trigger] self.as_map()[m]
                    == old(self).as_map()[m] by {
                    let k = old_names.index_of(m);
                    let k2: int = if k < i {
                        k
                    } else {
                        k + 1
                    };
                    assert(self.names()[k2] == m);
                    let k3 = self.names().index_of(m);
                    if k3 != k2 {
                        if k3 < k2 {
                            assert(lex_lt(self.names()[k3], self.names()[k2]));
                        } else {
                            assert(lex_lt(self.names()[k2], self.names()[k3]));
                        }
                        lemma_lex_irreflexive(m);
                    }
                }
                assert(self.names()[i as int] == entry.0);
                let k = self.names().index_of(entry.0);
                if k != i {
                    if k < i {
                        assert(lex_lt(self.names()[k], self.names()[i as int]));
                    } else {
                        assert(lex_lt(self.names()[i as int], self.names()[k]));
                    }
                    lemma_lex_irreflexive(entry.0);
                }
            }
        }
    }
}

impl OutputMap {
    /// The path of the output called `name`, if there is one.
    pub fn get(&self, name: &str) -> (r: Option<&StorePath>)
        requires
            self.wf(),
        ensures
            r is Some <==> self.names().contains(name@),
            r matches Some(p) ==> p@ == self.as_map()[name@],
    {
        let n = self.entries.len();
        let mut i: usize = 0;
        while i < n
            invariant
                n == self.entries@.len(),
                i <= n,
                self.wf(),
                forall|j: int| 0 <= j < i ==> #[trigger] self.names()[j] != name@,
            decreases n - i,
        {
            let here = self.entries[i].0.as_str();
            let below = name_lt(here, name);
            let above = name_lt(name, here);
            assert(self.names()[i as int] == here@);
            if !below && !above {
                proof {
                    lemma_lex_total(here@, name@);
                    assert(self.names().contains(name@));
                    let k = self.names().index_of(name@);
                    assert(0 <= k < self.names().len() && self.names()[k] == name@);
                    if k != i {
                        if k < i {
                            assert(lex_lt(self.names()[k], self.names()[i as int]));
                        } else {
                            assert(lex_lt(self.names()[i as int], self.names()[k]));
                        }
                        lemma_lex_irreflexive(name@);
                    }
                }
                return Some(&self.entries[i].1);
            }
            proof {
                lemma_lex_irreflexive(name@);
            }
            i = i + 1;
        }
        None
    }

    /// Whether there is an output called `name`.
    pub fn contains_key(&self, name: &str) -> (r: bool)
        requires
            self.wf(),
        ensures
            r == self.names().contains(name@),
    {
        self.get(name).is_some()
    }

    /// The output names, in the map's order: strict lexicographic order.
    pub fn keys(&self) -> (r: Vec<String>)
        requires
            self.wf(),
        ensures
            r@.map_values(|s: String| s@) == self.names(),
            strictly_sorted(r@.map_values(|s: String| s@)),
    {
        let mut r: Vec<String> = Vec::new();
        let mut i: usize = 0;
        while i < self.entries.len()
            invariant
                i <= self.entries@.len(),
                r@.len() == i,
                forall|j: int| 0 <= j < i ==> #[trigger] r@[j]@ == self.names()[j],
            decreases self.entries@.len() - i,
        {
            r.push(self.entries[i].0.clone());
            i = i + 1;
        }
        assert(r@.map_values(|s: String| s@) =~= self.names());
        r
    }

    /// The outputs as name and path pairs, in the map's order.
    pub fn into_entries(self) -> (r: Vec<(String, StorePath)>)
        ensures
            r@.map_values(|e: (String, StorePath)| (e.0@, e.1@)) == self@,
    {
        self.entries
    }

    /// Receives one output as a build reports it: the name as raw bytes,
    /// decoded with invalid sequences replaced, and a copy of the path.
    pub fn deliver(&mut self, name: &[u8], path: &StorePath)
        requires
            old(self).wf(),
        ensures
            final(self).wf(),
            final(self).names().to_set() == old(self).names().to_set().insert(lossy_utf8(name@)),
            forall|n: Seq<char>|
                n != lossy_utf8(name@) && old(self).names().contains(n)
                    ==> #[trigger] final(self).as_map()[n] == old(self).as_map()[n],
            final(self).as_map()[lossy_utf8(name@)] == path@,
    {
        let decoded = decode_lossy(name);
        self.insert(decoded, path.duplicate());
    }

    /// The map that receiving each of `outputs` in turn builds: the output
    /// names that a build delivers, each with its path, in any order.
    pub fn from_deliveries(outputs: Vec<(String, StorePath)>) -> (r: OutputMap)
        ensures
            r.wf(),
            r.names().to_set() == outputs@.map_values(|e: (String, StorePath)| e.0@).to_set(),
            forall|n: Seq<char>|
                #[trigger] r.names().contains(n) ==> Some(r.as_map()[n]) == last_delivered(
                    outputs@.map_values(|e: (String, StorePath)| (e.0@, e.1@)),
                    n,
                ),
    {
        let ghost given = outputs@.map_values(|e: (String, StorePath)| e.0@);
        let ghost full = outputs@.map_values(|e: (String, StorePath)| (e.0@, e.1@));
        let mut m = OutputMap::new();
        let mut rest = outputs;
        assert(m.names().to_set() =~= given.subrange(0, 0).to_set());
        let mut i: usize = 0;
        let n = rest.len();
        let mut rev: Vec<(String, StorePath)> = Vec::new();
        while rest.len() > 0
            invariant
                rev@.len() + rest@.len() == n,
                n == given.len(),
                n == full.len(),
                forall|j: int|
                    0 <= j < rest@.len() ==> (#[trigger] rest@[j]).0@ == given[j] && rest@[j].1@
                        == full[j].1,
                forall|j: int|
                    0 <= j < rev@.len() ==> (#[trigger] rev@[j]).0@ == given[n - 1 - j]
                        && rev@[j].1@ == full[n - 1 - j].1,
            decreases rest@.len(),
        {
            let e = rest.pop().unwrap();
            rev.push(e);
        }
        while rev.len() > 0
            invariant
                m.wf(),
                i + rev@.len() == n,
                n == given.len(),
                n == full.len(),
                forall|j: int| 0 <= j < n ==> #[trigger] full[j].0 == given[j],
                forall|j: int|
                    0 <= j < rev@.len() ==> (#[trigger] rev@[j]).0@ == given[n - 1 - j]
                        && rev@[j].1@ == full[n - 1 - j].1,
                m.names().to_set() == given.subrange(0, i as int).to_set(),
                forall|x: Seq<char>|
                    #[trigger] m.names().contains(x) ==> Some(m.as_map()[x]) == last_delivered(
                        full.subrange(0, i as int),
                        x,
                    ),
            decreases rev@.len(),
        {
            let e = rev.pop().unwrap();
            let ghost nm = e.0@;
            let ghost pv = e.1@;
            let ghost old_m = m;
            assert(nm == given[i as int]);
            m.insert(e.0, e.1);
            proof {
                let fpre = full.subrange(0, i as int);
                assert(full[i as int].0 == nm);
                assert(full[i as int].1 == pv);
                assert(full[i as int] == (nm, pv));
                assert(full.subrange(0, i + 1) =~= fpre.push((nm, pv)));
                assert(fpre.push((nm, pv)).drop_last() =~= fpre);
                assert forall|x: Seq<char>|
                    #[trigger] m.names().contains(x) implies Some(m.as_map()[x]) == last_delivered(
                    full.subrange(0, i + 1),
                    x,
                ) by {
                    if x != nm {
                        assert(m.names().to_set().contains(x));
                        assert(old_m.names().to_set().contains(x));
                        assert(old_m.names().contains(x));
                    }
                }
            }
            assert(given.subrange(0, i + 1) =~= given.subrange(0, i as int).push(nm));
            proof {
                let pre = given.subrange(0, i as int);
                assert forall|x: Seq<char>|
                    pre.push(nm).to_set().contains(x) <==> pre.to_set().insert(nm).contains(x) by {
                    if pre.push(nm).to_set().contains(x) {
                        let k = choose|k: int| 0 <= k < pre.len() + 1 && pre.push(nm)[k] == x;
                        if k < pre.len() {
                            assert(pre[k] == x);
                        }
                    }
                    if pre.to_set().insert(nm).contains(x) {
                        if x == nm {
                            assert(pre.push(nm)[pre.len() as int] == x);
                        } else {
                            let k = choose|k: int| 0 <= k < pre.len() && pre[k] == x;
                            assert(pre.push(nm)[k] == x);
                        }
                    }
                }
                assert(pre.push(nm).to_set() =~= pre.to_set().insert(nm));
            }
            i = i + 1;
        }
        assert(given.subrange(0, n as int) =~= given);
        assert(full.subrange(0, n as int) =~= full);
        m
    }
}

/// Two output maps that hold the same output names list them in the same
/// order, strict lexicographic order of the names, whatever order the outputs
/// were added in.
pub proof fn lemma_name_order_independent(a: OutputMap, b: OutputMap)
    requires
        a.wf(),
        b.wf(),
        a.names().to_set() == b.names().to_set(),
    ensures
        a.names() == b.names(),
        strictly_sorted(a.names()),
{
    lemma_sorted_unique(a.names(), b.names());
}

} // verus!
