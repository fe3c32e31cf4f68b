//! The catalog of entry names that mark a directory as the root of a project
//! or of a version-controlled tree.

use vstd::prelude::*;

verus! {

/// Whether `entries` (the names found in one directory) hold a name of `names`.
pub open spec fn lists_anchor(names: Seq<Seq<char>>, entries: Seq<Seq<char>>) -> bool {
    exists|k: int| 0 <= k < entries.len() && names.contains(#[trigger] entries[k])
}

/// The names of the standard catalog, in catalog order.
pub open spec fn standard_names() -> Seq<Seq<char>> {
    seq![
        ".git"@, ".bzr"@, ".citc"@, ".hg"@, ".node-version"@, ".python-version"@,
        ".go-version"@, ".ruby-version"@, ".lua-version"@, ".java-version"@,
        ".perl-version"@, ".php-version"@, ".tool-versions"@, ".shorten_folder_marker"@,
        ".svn"@, "CVS"@, "Cargo.toml"@, "composer.json"@, "go.mod"@, "package.json"@,
        "package-lock.json"@, "yarn.lock"@, "stack.yaml"@, "requirements.txt"@,
        "go.work"@, "__main__.py"@, "init.lua"@,
    ]
}

/// An immutable set of anchor names; membership is exact, case-sensitive
/// equality of names.
pub struct AnchorSet {
    names: Vec<String>,
}

impl View for AnchorSet {
    type V = Seq<Seq<char>>;

    closed spec fn view(&self) -> Seq<Seq<char>> {
        self.names.deep_view()
    }
}

impl AnchorSet {
    /// The standard catalog: version-control directories and the manifests,
    /// lockfiles and version pins of several language ecosystems.
    pub fn standard() -> (r: AnchorSet)
        ensures
            r@ == standard_names(),
    {
        let lits: [&str; 27] = [
            ".git", ".bzr", ".citc", ".hg", ".node-version", ".python-version",
            ".go-version", ".ruby-version", ".lua-version", ".java-version",
            ".perl-version", ".php-version", ".tool-versions", ".shorten_folder_marker",
            ".svn", "CVS", "Cargo.toml", "composer.json", "go.mod", "package.json",
            "package-lock.json", "yarn.lock", "stack.yaml", "requirements.txt",
            "go.work", "__main__.py", "init.lua",
        ];
        let ghost want = standard_names();
        assert(lits@.len() == 27);
        assert forall|k: int| 0 <= k < 27 implies #[trigger] lits@[k]@ == want[k] by {}
        let mut names: Vec<String> = Vec::new();
        let mut i: usize = 0;
        while i < 27
            invariant
                i <= 27,
                lits@.len() == 27,
                want.len() == 27,
                forall|k: int| 0 <= k < 27 ==> #[trigger] lits@[k]@ == want[k],
                names@.len() == i,
                names.deep_view() == want.take(i as int),
            decreases 27 - i,
        {
            let name = lits[i].to_owned();
            assert(name@ == want[i as int]);
            let ghost before = names@;
            names.push(name);
            assert forall|k: int| 0 <= k < i implies #[trigger] names@[k] == before[k] by {}
            assert(names.deep_view() =~= want.take(i + 1));
            i = i + 1;
        }
        assert(want.take(27) =~= want);
        AnchorSet { names }
    }

    /// A set made of the given names.
    pub fn from_names(names: Vec<String>) -> (r: AnchorSet)
        ensures
            r@ == names.deep_view(),
    {
        AnchorSet { names }
    }

    /// Whether `name` is one of the set's names.
    pub fn contains(&self, name: &String) -> (r: bool)
        ensures
            r == self@.contains(name@),
    {
        let mut i: usize = 0;
        while i < self.names.len()
            invariant
                i <= self.names@.len(),
                forall|k: int| 0 <= k < i ==> #[trigger] self.names@[k]@ != name@,
            decreases self.names@.len() - i,
        {
            if self.names[i] == *name {
                assert(self@[i as int] == name@);
                return true;
            }
            i = i + 1;
        }
        assert forall|k: int| 0 <= k < self@.len() implies #[trigger] self@[k] != name@ by {
            assert(self@[k] == self.names@[k]@);
        }
        false
    }

    /// Whether the listing of one directory holds an anchor name, so that the
    /// directory is the root of a project or repository.
    pub fn has_anchor(&self, entries: &Vec<String>) -> (r: bool)
        ensures
            r == lists_anchor(self@, entries.deep_view()),
    {
        let mut i: usize = 0;
        while i < entries.len()
            invariant
                i <= entries@.len(),
                forall|k: int| 0 <= k < i ==> !self@.contains(#[trigger] entries@[k]@),
            decreases entries@.len() - i,
        {
            if self.contains(&entries[i]) {
                assert(entries.deep_view()[i as int] == entries@[i as int]@);
                return true;
            }
            i = i + 1;
        }
        assert forall|k: int| 0 <= k < entries.deep_view().len() implies !self@.contains(
            #[trigger] entries.deep_view()[k],
        ) by {
            assert(entries.deep_view()[k] == entries@[k]@);
        }
        false
    }
}

} // verus!
