use vstd::prelude::*;

verus! {

/// Why a class catalog could not be built or queried.
#[derive(Clone, Copy, Debug, PartialEq, Eq, Structural)]
pub enum CatalogError {
    /// The source of class names could not be read.
    NotFound,
    /// The source held no class names.
    MalformedInput,
    /// No entry of the catalog is the requested name.
    ClassNotFound,
}

/// A line without its leading and trailing whitespace.
pub uninterp spec fn trimmed(s: Seq<char>) -> Seq<char>;

/// Relies on `str::trim`: the line without leading and trailing whitespace.
#[verifier::external_body]
fn trim_line(s: &str) -> (r: String)
    ensures
        r@ == trimmed(s@),
{
    s.trim().to_string()
}

/// The ordered class names of a detector; a class id is an index into it.
pub struct ClassCatalog {
    pub names: Vec<String>,
}

/// `i` is the first position of `names` that holds `name`.
pub open spec fn is_first_match(names: Seq<Seq<char>>, name: Seq<char>, i: int) -> bool {
    &&& 0 <= i < names.len()
    &&& names[i] == name
    &&& forall|j: int| 0 <= j < i ==> names[j] != name
}

impl ClassCatalog {
    pub open spec fn view(&self) -> Seq<Seq<char>> {
        self.names@.map_values(|s: String| s@)
    }

    /// The class id of `name`: its first position (meaningful when present).
    pub open spec fn id_of(&self, name: Seq<char>) -> int {
        choose|i: int| is_first_match(self@, name, i)
    }

    pub open spec fn lists(&self, name: Seq<char>) -> bool {
        self@.contains(name)
    }

    /// Builds a catalog from the lines of a class-name source, one name per
    /// line, each trimmed of surrounding whitespace. No lines at all is an
    /// error.
    pub fn from_lines(lines: &Vec<String>) -> (r: Result<ClassCatalog, CatalogError>)
        ensures
            r matches Err(e) ==> e == CatalogError::MalformedInput,
            r is Err <==> lines@.len() == 0,
            r matches Ok(c) ==> c@ == lines@.map_values(|s: String| trimmed(s@)),
    {
        if lines.len() == 0 {
            return Err(CatalogError::MalformedInput);
        }
        let mut names: Vec<String> = Vec::new();
        let mut i: usize = 0;
        while i < lines.len()
            invariant
                i <= lines@.len(),
                names@.len() == i,
                forall|j: int| 0 <= j < i ==> names@[j]@ == trimmed(lines@[j]@),
            decreases lines@.len() - i,
        {
            let name = trim_line(lines[i].as_str());
            names.push(name);
            i = i + 1;
        }
        let c = ClassCatalog { names };
        assert(c@ =~= lines@.map_values(|s: String| trimmed(s@)));
        Ok(c)
    }

    /// Number of classes.
    pub fn len(&self) -> (r: usize)
        ensures
            r == self@.len(),
    {
        self.names.len()
    }

    /// The id of the first class named exactly `name`.
    pub fn resolve(&self, name: &String) -> (r: Result<usize, CatalogError>)
        ensures
            r is Err <==> !self.lists(name@),
            r matches Err(e) ==> e == CatalogError::ClassNotFound,
            r matches Ok(i) ==> is_first_match(self@, name@, i as int) && i == self.id_of(name@),
    {
        let mut i: usize = 0;
        while i < self.names.len()
            invariant
                i <= self@.len(),
                forall|j: int| 0 <= j < i ==> self@[j] != name@,
            decreases self@.len() - i,
        {
            if self.names[i] == *name {
                proof {
                    assert(is_first_match(self@, name@, i as int));
                    lemma_first_match_unique(self@, name@, i as int, self.id_of(name@));
                    assert(self@[i as int] == name@);
                }
                return Ok(i);
            }
            i = i + 1;
        }
        proof {
            if self@.contains(name@) {
                let k = choose|k: int| 0 <= k < self@.len() && self@[k] == name@;
                assert(self@[k] != name@);
            }
        }
        Err(CatalogError::ClassNotFound)
    }
}

proof fn lemma_first_match_unique(names: Seq<Seq<char>>, name: Seq<char>, i: int, k: int)
    requires
        is_first_match(names, name, i),
        is_first_match(names, name, k),
    ensures
        i == k,
{
    if i < k {
        assert(names[i] == name);
    } else if k < i {
        assert(names[k] == name);
    }
}

} // verus!
