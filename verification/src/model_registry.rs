//! The registry of loaded models: a catalog of model definitions and the
//! models loaded so far, each under its id. A model is loaded once and then
//! shared; loading itself (reading the files) is the caller's, between
//! `load_step` and `store_loaded`.
use vstd::prelude::*;
use crate::catalog::{get_model_def, ModelDef};
use crate::text::{copy_string, owned, str_eq};

verus! {

/// The models of a list of (id, model) pairs, by id; a later pair wins.
pub open spec fn models_map<M>(s: Seq<(String, M)>) -> Map<Seq<char>, M>
    decreases s.len(),
{
    if s.len() == 0 {
        Map::empty()
    } else {
        models_map(s.drop_last()).insert(s.last().0@, s.last().1)
    }
}

/// The pairs whose id is not `id`, in order.
pub open spec fn without_model<M>(s: Seq<(String, M)>, id: Seq<char>) -> Seq<(String, M)>
    decreases s.len(),
{
    if s.len() == 0 {
        s
    } else if s.last().0@ == id {
        without_model(s.drop_last(), id)
    } else {
        without_model(s.drop_last(), id).push(s.last())
    }
}

proof fn lemma_without_model<M>(s: Seq<(String, M)>, id: Seq<char>)
    ensures
        models_map(without_model(s, id)) == models_map(s).remove(id),
    decreases s.len(),
{
    if s.len() == 0 {
        assert(models_map(s).remove(id) =~= models_map(s));
    } else {
        let d = s.drop_last();
        lemma_without_model(d, id);
        if s.last().0@ == id {
            assert(models_map(d).insert(id, s.last().1).remove(id) =~= models_map(d).remove(id));
        } else {
            let w = without_model(s, id);
            assert(w.drop_last() =~= without_model(d, id));
            assert(w.last() == s.last());
            assert(models_map(w) == models_map(without_model(d, id)).insert(s.last().0@, s.last().1));
            assert(models_map(d).remove(id).insert(s.last().0@, s.last().1) =~= models_map(d).insert(
                s.last().0@,
                s.last().1,
            ).remove(id));
        }
    }
}

proof fn lemma_models_map_at<M>(s: Seq<(String, M)>, id: Seq<char>, k: int)
    requires
        0 <= k < s.len(),
        s[k].0@ == id,
        forall|j: int| k < j < s.len() ==> (#[trigger] s[j]).0@ != id,
    ensures
        models_map(s).contains_key(id),
        models_map(s)[id] == s[k].1,
    decreases s.len(),
{
    if k < s.len() - 1 {
        let d = s.drop_last();
        assert forall|j: int| k < j < d.len() implies (#[trigger] d[j]).0@ != id by {
            assert(d[j] == s[j]);
        }
        assert(d[k] == s[k]);
        lemma_models_map_at(d, id, k);
        assert(s.last() == s[s.len() - 1]);
    }
}

proof fn lemma_models_map_absent<M>(s: Seq<(String, M)>, id: Seq<char>)
    requires
        forall|j: int| 0 <= j < s.len() ==> (#[trigger] s[j]).0@ != id,
    ensures
        !models_map(s).contains_key(id),
    decreases s.len(),
{
    if s.len() > 0 {
        let d = s.drop_last();
        assert forall|j: int| 0 <= j < d.len() implies (#[trigger] d[j]).0@ != id by {
            assert(d[j] == s[j]);
        }
        lemma_models_map_absent(d, id);
        assert(s.last() == s[s.len() - 1]);
    }
}

/// The model catalog and the models loaded from it.
pub struct ModelRegistry<M> {
    loaded: Vec<(String, M)>,
    catalog: Vec<ModelDef>,
}

/// The next step of getting a model: it is loaded already; or load it from
/// this definition; or its id is not in the catalog (with the message).
pub enum LoadStep<'a, M> {
    Ready(&'a M),
    Load(&'a ModelDef),
    NotInCatalog(String),
}

/// The message when a model's id is not in the catalog.
pub open spec fn not_in_catalog_message(id: Seq<char>) -> Seq<char> {
    "Model '"@ + id + "' not found in catalog"@
}

impl<M> ModelRegistry<M> {
    /// The loaded models, by id.
    pub closed spec fn models(&self) -> Map<Seq<char>, M> {
        models_map(self.loaded@)
    }

    /// The catalog.
    pub closed spec fn catalog(&self) -> Seq<ModelDef> {
        self.catalog@
    }

    /// An empty registry.
    pub fn new() -> (r: Self)
        ensures
            r.models() == Map::<Seq<char>, M>::empty(),
            r.catalog() == Seq::<ModelDef>::empty(),
    {
        ModelRegistry { loaded: Vec::new(), catalog: Vec::new() }
    }

    /// Replaces the catalog; the loaded models stay.
    pub fn set_catalog(&mut self, defs: Vec<ModelDef>)
        ensures
            final(self).catalog() == defs@,
            final(self).models() == old(self).models(),
    {
        self.catalog = defs;
    }

    /// The definition of a model by id: the first in the catalog with it.
    pub fn get_model_def(&self, id: &str) -> (r: Option<&ModelDef>)
        ensures
            r is None <==> forall|k: int|
                0 <= k < self.catalog().len() ==> (#[trigger] self.catalog()[k]).id@ != id@,
            r matches Some(m) ==> exists|k: int|
                0 <= k < self.catalog().len() && *m == self.catalog()[k] && m.id@ == id@ && forall|
                    j: int,
                | 0 <= j < k ==> (#[trigger] self.catalog()[j]).id@ != id@,
    {
        let c = self.catalog.as_slice();
        let r = get_model_def(c, id);
        proof {
            assert(self.catalog() == c@);
        }
        r
    }

    /// The loaded model with the id, if any.
    pub fn get(&self, id: &str) -> (r: Option<&M>)
        ensures
            r is None <==> !self.models().contains_key(id@),
            r matches Some(m) ==> *m == self.models()[id@],
    {
        let mut k: usize = self.loaded.len();
        while k > 0
            invariant
                0 <= k <= self.loaded@.len(),
                forall|j: int| k <= j < self.loaded@.len() ==> (#[trigger] self.loaded@[j]).0@ != id@,
            decreases k,
        {
            k = k - 1;
            if str_eq(self.loaded[k].0.as_str(), id) {
                proof {
                    lemma_models_map_at(self.loaded@, id@, k as int);
                }
                return Some(&self.loaded[k].1);
            }
        }
        proof {
            lemma_models_map_absent(self.loaded@, id@);
        }
        None
    }

    /// Whether a model with the id is loaded.
    pub fn is_loaded(&self, id: &str) -> (r: bool)
        ensures
            r == self.models().contains_key(id@),
    {
        self.get(id).is_some()
    }

    /// What getting the model with the id takes: the loaded model when there
    /// is one; else its catalog definition, to load it from; else the
    /// not-found message.
    pub fn load_step(&self, id: &str) -> (r: LoadStep<'_, M>)
        ensures
            self.models().contains_key(id@) ==> (r matches LoadStep::Ready(m) && *m
                == self.models()[id@]),
            !self.models().contains_key(id@) ==> match self.get_model_def_spec(id@) {
                Some(d) => r matches LoadStep::Load(def) && *def == d,
                None => r matches LoadStep::NotInCatalog(msg) && msg@ == not_in_catalog_message(id@),
            },
    {
        match self.get(id) {
            Some(m) => LoadStep::Ready(m),
            None => match self.get_model_def(id) {
                Some(d) => {
                    proof {
                        let k = choose|k: int|
                            0 <= k < self.catalog().len() && *d == self.catalog()[k] && d.id@
                                == id@ && forall|j: int|
                                0 <= j < k ==> (#[trigger] self.catalog()[j]).id@ != id@;
                        self.lemma_first_def(id@, k);
                    }
                    LoadStep::Load(d)
                },
                None => {
                    let mut msg = owned("Model '");
                    msg.append(id);
                    msg.append("' not found in catalog");
                    LoadStep::NotInCatalog(msg)
                },
            },
        }
    }

    /// The first catalog definition with the id.
    pub open spec fn get_model_def_spec(&self, id: Seq<char>) -> Option<ModelDef> {
        if exists|k: int| 0 <= k < self.catalog().len() && (#[trigger] self.catalog()[k]).id@ == id {
            let k = choose|k: int|
                0 <= k < self.catalog().len() && (#[trigger] self.catalog()[k]).id@ == id && forall|
                    j: int,
                | 0 <= j < k ==> (#[trigger] self.catalog()[j]).id@ != id;
            Some(self.catalog()[k])
        } else {
            None
        }
    }

    proof fn lemma_first_def(&self, id: Seq<char>, k: int)
        requires
            0 <= k < self.catalog().len(),
            self.catalog()[k].id@ == id,
            forall|j: int| 0 <= j < k ==> (#[trigger] self.catalog()[j]).id@ != id,
        ensures
            self.get_model_def_spec(id) == Some(self.catalog()[k]),
    {
        let c = self.catalog();
        assert(exists|k: int| 0 <= k < c.len() && (#[trigger] c[k]).id@ == id);
        let k2 = choose|k2: int|
            0 <= k2 < c.len() && (#[trigger] c[k2]).id@ == id && forall|j: int|
                0 <= j < k2 ==> (#[trigger] c[j]).id@ != id;
        if k2 < k {
            assert(c[k2].id@ != id);
        } else if k < k2 {
            assert(c[k].id@ != id);
        }
    }

    /// Puts a model under the id, replacing any model there.
    pub fn insert(&mut self, id: &str, model: M)
        ensures
            final(self).models() == old(self).models().insert(id@, model),
            final(self).catalog() == old(self).catalog(),
    {
        self.remove_all(id);
        let ghost before = self.loaded@;
        self.loaded.push((owned(id), model));
        proof {
            assert(self.loaded@.drop_last() == before);
        }
        assert(self.models() =~= old(self).models().insert(id@, model));
    }

    /// Stores a model just loaded under the id, unless a model is already
    /// loaded there (then that one stays and is shared).
    pub fn store_loaded(&mut self, id: &str, model: M)
        ensures
            old(self).models().contains_key(id@) ==> final(self).models() == old(self).models(),
            !old(self).models().contains_key(id@) ==> final(self).models() == old(
                self,
            ).models().insert(id@, model),
            final(self).catalog() == old(self).catalog(),
    {
        if !self.is_loaded(id) {
            self.insert(id, model);
        }
    }

    /// Removes the model with the id; whether one was loaded.
    pub fn unload(&mut self, id: &str) -> (r: bool)
        ensures
            r == old(self).models().contains_key(id@),
            final(self).models() == old(self).models().remove(id@),
            final(self).catalog() == old(self).catalog(),
    {
        let was = self.is_loaded(id);
        self.remove_all(id);
        was
    }

    /// The ids of the loaded models.
    pub fn loaded_ids(&self) -> (r: Vec<String>)
        ensures
            forall|k: int| 0 <= k < r@.len() ==> self.models().contains_key(#[trigger] r@[k]@),
            forall|id: Seq<char>| #[trigger] self.models().contains_key(id) ==> exists|k: int|
                0 <= k < r@.len() && r@[k]@ == id,
    {
        let mut out: Vec<String> = Vec::new();
        let mut k: usize = 0;
        while k < self.loaded.len()
            invariant
                0 <= k <= self.loaded@.len(),
                out@.len() == k,
                forall|j: int| 0 <= j < k ==> (#[trigger] out@[j])@ == self.loaded@[j].0@,
            decreases self.loaded@.len() - k,
        {
            out.push(copy_string(&self.loaded[k].0));
            k = k + 1;
        }
        proof {
            self.lemma_ids(self.loaded@);
            assert forall|k: int| 0 <= k < out@.len() implies self.models().contains_key(
                #[trigger] out@[k]@,
            ) by {
                assert(out@[k]@ == self.loaded@[k].0@);
            }
            assert forall|id: Seq<char>| #[trigger] self.models().contains_key(id) implies exists|
                k: int,
            | 0 <= k < out@.len() && out@[k]@ == id by {
                let k = choose|k: int| 0 <= k < self.loaded@.len() && self.loaded@[k].0@ == id;
                assert(out@[k]@ == id);
            }
        }
        out
    }

    proof fn lemma_ids(&self, s: Seq<(String, M)>)
        ensures
            forall|id: Seq<char>|
                #[trigger] models_map(s).contains_key(id) <==> exists|k: int|
                    0 <= k < s.len() && s[k].0@ == id,
        decreases s.len(),
    {
        if s.len() > 0 {
            let d = s.drop_last();
            self.lemma_ids(d);
            assert forall|id: Seq<char>|
                #[trigger] models_map(s).contains_key(id) <==> exists|k: int|
                    0 <= k < s.len() && s[k].0@ == id by {
                if models_map(s).contains_key(id) && id != s.last().0@ {
                    assert(models_map(d).contains_key(id));
                    let k = choose|k: int| 0 <= k < d.len() && d[k].0@ == id;
                    assert(s[k] == d[k]);
                }
                if id == s.last().0@ {
                    assert(s[s.len() - 1].0@ == id);
                }
                if exists|k: int| 0 <= k < s.len() && s[k].0@ == id {
                    let k = choose|k: int| 0 <= k < s.len() && s[k].0@ == id;
                    if k < s.len() - 1 {
                        assert(d[k] == s[k]);
                        assert(models_map(d).contains_key(id));
                    }
                }
            }
        }
    }

    /// Drops every pair with the id.
    fn remove_all(&mut self, id: &str)
        ensures
            final(self).loaded@ == without_model(old(self).loaded@, id@),
            final(self).catalog == old(self).catalog,
            final(self).models() == old(self).models().remove(id@),
    {
        let ghost all = self.loaded@;
        let mut kept: Vec<(String, M)> = Vec::new();
        let mut rest: Vec<(String, M)> = Vec::new();
        std::mem::swap(&mut rest, &mut self.loaded);
        let mut i: usize = 0;
        let n = rest.len();
        while rest.len() > 0
            invariant
                n == all.len(),
                0 <= i <= n,
                rest@ == all.skip(i as int),
                kept@ == without_model(all.take(i as int), id@),
            decreases rest@.len(),
        {
            let p = rest.remove(0);
            proof {
                assert(p == all[i as int]);
                assert(rest@ =~= all.skip(i + 1));
                assert(all.take(i + 1).drop_last() =~= all.take(i as int));
                assert(all.take(i + 1).last() == p);
            }
            if !str_eq(p.0.as_str(), id) {
                kept.push(p);
            }
            i = i + 1;
        }
        assert(all.take(n as int) =~= all);
        self.loaded = kept;
        proof {
            lemma_without_model(all, id@);
        }
    }
}

} // verus!
