use vstd::prelude::*;

verus! {

/// Failure a parameter binder can report: the source had no bindings for this
/// request at all, or it was present but could not be parsed. Context
/// construction folds both into an empty map rather than aborting.
#[derive(Clone, Copy, PartialEq, Eq, Structural, Debug)]
pub enum BindFailure {
    Absent,
    Malformed,
}

/// First matching binding for `k` in an association list of name/value pairs.
pub open spec fn pm_lookup(s: Seq<(Seq<char>, Seq<char>)>, k: Seq<char>) -> Option<Seq<char>>
    decreases s.len(),
{
    if s.len() == 0 {
        None
    } else if s[0].0 == k {
        Some(s[0].1)
    } else {
        pm_lookup(s.drop_first(), k)
    }
}

/// No two bindings share a name.
pub open spec fn pm_keys_unique(s: Seq<(Seq<char>, Seq<char>)>) -> bool {
    forall|i: int, j: int| 0 <= i < j < s.len() ==> s[i].0 != s[j].0
}

/// Model of a raw pair list: each component replaced by its character view.
pub open spec fn pairs_model(s: Seq<(String, String)>) -> Seq<(Seq<char>, Seq<char>)> {
    s.map_values(|p: (String, String)| (p.0@, p.1@))
}

pub proof fn lemma_lookup_at_index(s: Seq<(Seq<char>, Seq<char>)>, k: Seq<char>, i: int)
    requires
        0 <= i < s.len(),
        s[i].0 == k,
        forall|j: int| 0 <= j < i ==> s[j].0 != k,
    ensures
        pm_lookup(s, k) == Some(s[i].1),
    decreases i,
{
    if i == 0 {
    } else {
        assert(s.drop_first()[i - 1] == s[i]);
        assert(forall|j: int| 0 <= j < i - 1 ==> s.drop_first()[j] == s[j + 1]);
        lemma_lookup_at_index(s.drop_first(), k, i - 1);
    }
}

pub proof fn lemma_lookup_absent(s: Seq<(Seq<char>, Seq<char>)>, k: Seq<char>)
    requires
        forall|j: int| 0 <= j < s.len() ==> s[j].0 != k,
    ensures
        pm_lookup(s, k) is None,
    decreases s.len(),
{
    if s.len() > 0 {
        assert(forall|j: int| 0 <= j < s.drop_first().len() ==> s.drop_first()[j] == s[j + 1]);
        lemma_lookup_absent(s.drop_first(), k);
    }
}

/// Appending a pair only fills a name that was absent before.
pub proof fn lemma_lookup_push(s: Seq<(Seq<char>, Seq<char>)>, p: (Seq<char>, Seq<char>), k: Seq<char>)
    ensures
        pm_lookup(s.push(p), k) == (if pm_lookup(s, k) is Some {
            pm_lookup(s, k)
        } else if p.0 == k {
            Some(p.1)
        } else {
            None
        }),
    decreases s.len(),
{
    if s.len() == 0 {
        assert(s.push(p)[0] == p);
        assert(s.push(p).drop_first() =~= Seq::<(Seq<char>, Seq<char>)>::empty());
    } else {
        assert(s.push(p)[0] == s[0]);
        assert(s.push(p).drop_first() =~= s.drop_first().push(p));
        lemma_lookup_push(s.drop_first(), p, k);
    }
}

/// Text-keyed, text-valued parameter bindings with unique names; one instance
/// per context holds the path bindings, another the query bindings.
pub struct ParameterMap {
    pairs: Vec<(String, String)>,
}

impl View for ParameterMap {
    type V = Seq<(Seq<char>, Seq<char>)>;

    closed spec fn view(&self) -> Seq<(Seq<char>, Seq<char>)> {
        pairs_model(self.pairs@)
    }
}

impl ParameterMap {
    pub open spec fn wf(&self) -> bool {
        pm_keys_unique(self@)
    }

    pub fn new() -> (r: ParameterMap)
        ensures
            r@ =~= Seq::<(Seq<char>, Seq<char>)>::empty(),
            r.wf(),
    {
        ParameterMap { pairs: Vec::new() }
    }

    pub fn len(&self) -> (n: usize)
        ensures
            n == self@.len(),
    {
        self.pairs.len()
    }

    pub fn contains_key(&self, key: &String) -> (r: bool)
        ensures
            r == (pm_lookup(self@, key@) is Some),
    {
        let n: usize = self.pairs.len();
        let mut i: usize = 0;
        while i < n
            invariant
                n == self@.len(),
                0 <= i <= n,
                forall|j: int| 0 <= j < i ==> self@[j].0 != key@,
            decreases n - i,
        {
            if self.pairs[i].0 == *key {
                proof {
                    lemma_lookup_at_index(self@, key@, i as int);
                }
                return true;
            }
            i += 1;
        }
        proof {
            lemma_lookup_absent(self@, key@);
        }
        false
    }

    /// Value bound to `key`, or `None` when the name is absent.
    pub fn get(&self, key: &String) -> (r: Option<String>)
        ensures
            match r {
                Some(v) => pm_lookup(self@, key@) == Some(v@),
                None => pm_lookup(self@, key@) is None,
            },
    {
        let n: usize = self.pairs.len();
        let mut i: usize = 0;
        while i < n
            invariant
                n == self@.len(),
                0 <= i <= n,
                forall|j: int| 0 <= j < i ==> self@[j].0 != key@,
            decreases n - i,
        {
            if self.pairs[i].0 == *key {
                proof {
                    lemma_lookup_at_index(self@, key@, i as int);
                }
                return Some(self.pairs[i].1.clone());
            }
            i += 1;
        }
        proof {
            lemma_lookup_absent(self@, key@);
        }
        None
    }

    /// Raw bindings in order; exposed so the bridge can serialize them.
    pub fn bindings(&self) -> (r: &Vec<(String, String)>)
        ensures
            pairs_model(r@) == self@,
    {
        &self.pairs
    }

    /// Build a map from raw binder output. The first binding of a name wins;
    /// the binders this library consumes never repeat a name.
    pub fn from_pairs(src: Vec<(String, String)>) -> (r: ParameterMap)
        ensures
            r.wf(),
            forall|k: Seq<char>| pm_lookup(r@, k) == pm_lookup(pairs_model(src@), k),
    {
        let mut out = ParameterMap { pairs: Vec::new() };
        let n: usize = src.len();
        let mut i: usize = 0;
        while i < n
            invariant
                n == src@.len(),
                0 <= i <= n,
                out.wf(),
                forall|k: Seq<char>|
                    pm_lookup(out@, k) == pm_lookup(pairs_model(src@.subrange(0, i as int)), k),
            decreases n - i,
        {
            let ghost old_out = out@;
            let key = src[i].0.clone();
            let value = src[i].1.clone();
            let present = out.contains_key(&key);
            if !present {
                out.pairs.push((key, value));
            }
            proof {
                let prefix = pairs_model(src@.subrange(0, i as int));
                let prefix2 = pairs_model(src@.subrange(0, i + 1 as int));
                assert(prefix2 =~= prefix.push((src@[i as int].0@, src@[i as int].1@)));
                if !present {
                    assert(out@ =~= old_out.push((key@, value@)));
                    assert forall|k: Seq<char>|
                        pm_lookup(out@, k) == pm_lookup(prefix2, k) by {
                        lemma_lookup_push(old_out, (key@, value@), k);
                        lemma_lookup_push(prefix, (src@[i as int].0@, src@[i as int].1@), k);
                    }
                    assert forall|a: int, b: int| 0 <= a < b < out@.len() implies out@[a].0 != out@[b].0 by {
                        if b == out@.len() - 1 {
                            lemma_lookup_at_index(old_out, old_out[a].0, a);
                        }
                    }
                } else {
                    assert forall|k: Seq<char>|
                        pm_lookup(out@, k) == pm_lookup(prefix2, k) by {
                        lemma_lookup_push(prefix, (src@[i as int].0@, src@[i as int].1@), k);
                    }
                }
            }
            i += 1;
        }
        proof {
            assert(src@.subrange(0, n as int) =~= src@);
        }
        out
    }
}

/// Raw lookups are functional: two results that the accessor contract admits
/// for one map and one name are the same value, so repeated calls agree.
pub proof fn lemma_lookup_functional(
    m: Seq<(Seq<char>, Seq<char>)>,
    k: Seq<char>,
    r1: Option<Seq<char>>,
    r2: Option<Seq<char>>,
)
    requires
        r1 == pm_lookup(m, k),
        r2 == pm_lookup(m, k),
    ensures
        r1 == r2,
{
}

} // verus!
