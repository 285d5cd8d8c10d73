use vstd::prelude::*;

use crate::config::{find_key, has_key, first_key_at, Config, ConfigView};
use crate::error::PapError;
use crate::status::clone_bytes;
use crate::text::join;

verus! {

/// A submission: a pipeline description together with the bytes of every
/// binary that its projects name, keyed by the project's `binary` path.
#[derive(Clone, Debug)]
pub struct Context {
    pub config: Config,
    /// Binary bytes by path. Lookups take the first entry with a path.
    pub files: Vec<(String, Vec<u8>)>,
}

pub ghost struct ContextView {
    pub config: ConfigView,
    pub files: Seq<(String, Seq<u8>)>,
}

impl View for Context {
    type V = ContextView;

    open spec fn view(&self) -> ContextView {
        ContextView {
            config: self.config@,
            files: self.files@.map_values(|e: (String, Vec<u8>)| (e.0, e.1@)),
        }
    }
}

/// Every entry of the bundle is some project's binary.
pub open spec fn bundle_named(config: ConfigView, files: Seq<(String, Seq<u8>)>) -> bool {
    forall|f: int| 0 <= f < files.len() ==> #[trigger] named_binary(config, files[f].0@)
}

/// Some project of `config` has binary `key`.
pub open spec fn named_binary(config: ConfigView, key: Seq<char>) -> bool {
    exists|p: int| 0 <= p < config.projects.len() && #[trigger] config.projects[p].binary == key
}

/// Every project's binary is in the file bundle.
pub open spec fn bundle_complete(config: ConfigView, files: Seq<(String, Seq<u8>)>) -> bool {
    forall|p: int| 0 <= p < config.projects.len() ==> has_key(files, #[trigger] config.projects[p].binary)
}

proof fn lemma_files_keys(files: Seq<(String, Vec<u8>)>, k: Seq<char>)
    ensures
        has_key(files, k) == has_key(files.map_values(|e: (String, Vec<u8>)| (e.0, e.1@)), k),
{
    let m = files.map_values(|e: (String, Vec<u8>)| (e.0, e.1@));
    if has_key(files, k) {
        let i = choose|i: int| 0 <= i < files.len() && (#[trigger] files[i]).0@ == k;
        assert(m[i].0@ == k);
    }
    if has_key(m, k) {
        let i = choose|i: int| 0 <= i < m.len() && (#[trigger] m[i]).0@ == k;
        assert(files[i].0@ == k);
    }
}

impl Context {
    /// The binary paths that a submission of `config` must carry, in
    /// project order.
    pub fn binaries(config: &Config) -> (r: Vec<String>)
        ensures
            r@.len() == config.projects@.len(),
            forall|i: int| 0 <= i < r@.len() ==> (#[trigger] r@[i])@ == config.projects@[i].binary@,
    {
        let mut r: Vec<String> = Vec::new();
        let mut i: usize = 0;
        while i < config.projects.len()
            invariant
                0 <= i <= config.projects@.len(),
                r@.len() == i,
                forall|j: int| 0 <= j < i ==> (#[trigger] r@[j])@ == config.projects@[j].binary@,
            decreases config.projects@.len() - i,
        {
            r.push(config.projects[i].binary.clone());
            i += 1;
        }
        r
    }

    /// Bundles `config` with the loaded binaries; fails when a project's
    /// binary is missing from `files`, or `files` holds one that no project
    /// names.
    pub fn build_with_config(config: Config, files: Vec<(String, Vec<u8>)>) -> (r: Result<Context, PapError>)
        ensures
            match r {
                Ok(c) => c.config@ == config@ && c.files@ == files@,
                Err(e) => e is Configuration,
            },
            r is Ok <==> bundle_complete(config@, files@.map_values(|e: (String, Vec<u8>)| (e.0, e.1@)))
                && bundle_named(config@, files@.map_values(|e: (String, Vec<u8>)| (e.0, e.1@))),
    {
        let ghost fv = files@.map_values(|e: (String, Vec<u8>)| (e.0, e.1@));
        let mut p: usize = 0;
        while p < config.projects.len()
            invariant
                0 <= p <= config.projects@.len(),
                fv == files@.map_values(|e: (String, Vec<u8>)| (e.0, e.1@)),
                forall|q: int| 0 <= q < p ==> has_key(fv, #[trigger] config@.projects[q].binary),
            decreases config.projects@.len() - p,
        {
            let found = find_key(&files, config.projects[p].binary.as_str());
            proof {
                lemma_files_keys(files@, config.projects@[p as int].binary@);
                assert(config@.projects[p as int].binary == config.projects@[p as int].binary@);
            }
            if found.is_none() {
                assert(config@.projects[p as int].binary == config.projects@[p as int].binary@);
                return Err(PapError::Configuration(join("missing file for binary: ", config.projects[p].binary.as_str())));
            }
            p += 1;
        }
        let mut f: usize = 0;
        while f < files.len()
            invariant
                0 <= f <= files@.len(),
                fv == files@.map_values(|e: (String, Vec<u8>)| (e.0, e.1@)),
                forall|q: int| 0 <= q < config.projects@.len() ==> has_key(fv, #[trigger] config@.projects[q].binary),
                forall|g: int| 0 <= g < f ==> #[trigger] named_binary(config@, fv[g].0@),
            decreases files@.len() - f,
        {
            let ghost key = files@[f as int].0@;
            assert(fv[f as int].0@ == key);
            let mut p: usize = 0;
            let mut named = false;
            while p < config.projects.len() && !named
                invariant
                    0 <= p <= config.projects@.len(),
                    0 <= f < files@.len(),
                    key == files@[f as int].0@,
                    !named ==> forall|q: int| 0 <= q < p ==> config@.projects[q].binary != key,
                    named ==> p < config.projects@.len() && config@.projects[p as int].binary == key,
                decreases config.projects@.len() - p + (if named { 0int } else { 1int }),
            {
                assert(config@.projects[p as int].binary == config.projects@[p as int].binary@);
                if config.projects[p].binary == files[f].0 {
                    named = true;
                } else {
                    p += 1;
                }
            }
            if !named {
                assert(!named_binary(config@, fv[f as int].0@));
                assert(!bundle_named(config@, fv));
                return Err(PapError::Configuration(join("file named by no project: ", files[f].0.as_str())));
            }
            assert(config@.projects[p as int].binary == fv[f as int].0@);
            assert(named_binary(config@, fv[f as int].0@));
            f += 1;
        }
        assert(fv.len() == files@.len());
        Ok(Context { config, files })
    }

    pub fn config(&self) -> (r: &Config)
        ensures
            r == &self.config,
    {
        &self.config
    }

    pub fn files(&self) -> (r: &Vec<(String, Vec<u8>)>)
        ensures
            r == &self.files,
    {
        &self.files
    }

    /// The bytes bundled under `name`.
    pub fn get_file(&self, name: &str) -> (r: Option<&Vec<u8>>)
        ensures
            match r {
                Some(b) => exists|i: int| first_key_at(self.files@, name@, i) && b@ == self.files@[i].1@,
                None => !has_key(self.files@, name@),
            },
    {
        match find_key(&self.files, name) {
            Some(i) => Some(&self.files[i].1),
            None => None,
        }
    }

    pub fn deep_clone(&self) -> (r: Context)
        ensures
            r@ == self@,
    {
        let mut files: Vec<(String, Vec<u8>)> = Vec::new();
        let mut i: usize = 0;
        while i < self.files.len()
            invariant
                0 <= i <= self.files@.len(),
                files@.len() == i,
                forall|j: int| 0 <= j < i ==> (#[trigger] files@[j]).0 == self.files@[j].0 && files@[j].1@ == self.files@[j].1@,
            decreases self.files@.len() - i,
        {
            files.push((self.files[i].0.clone(), clone_bytes(&self.files[i].1)));
            i += 1;
        }
        assert(files@.map_values(|e: (String, Vec<u8>)| (e.0, e.1@)) =~= self.files@.map_values(|e: (String, Vec<u8>)| (e.0, e.1@)));
        Context { config: self.config.deep_clone(), files }
    }
}

} // verus!
