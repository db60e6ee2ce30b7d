//! The modules that an isolate can load.

use vstd::prelude::*;

use crate::text::{chars_of, join};

verus! {

/// How the source of a module is read.
#[derive(Clone, Copy, Debug, PartialEq, Eq, Structural)]
pub enum ModuleType {
    JavaScript,
    Json,
}

/// A module loader that you can pre-load a number of modules into and resolve from. Useful for testing and
/// embedding situations where the filesystem and snapshot systems are not usable or a good fit.
pub struct FusionModuleLoader {
    modules: Vec<(String, String)>,
}

/// Several parts with a slash between each two.
pub open spec fn joined(parts: Seq<Seq<char>>) -> Seq<char>
    decreases parts.len(),
{
    if parts.len() == 0 {
        Seq::empty()
    } else if parts.len() == 1 {
        parts[0]
    } else {
        joined(parts.drop_last()) + "/"@ + parts.last()
    }
}

/// The texts of several parts.
pub open spec fn part_views(parts: Seq<String>) -> Seq<Seq<char>> {
    parts.map_values(|p: String| p@)
}

/// Several parts with a slash between each two.
fn join_parts(parts: &Vec<String>) -> (r: String)
    ensures
        r@ == joined(part_views(parts@)),
{
    let ghost all = part_views(parts@);
    if parts.len() == 0 {
        proof {
            reveal_strlit("");
            assert(""@ =~= Seq::<char>::empty());
        }
        return "".to_owned();
    }
    let mut r = parts[0].clone();
    assert(all.take(1)[0] == r@);
    let mut i: usize = 1;
    while i < parts.len()
        invariant
            1 <= i <= parts@.len(),
            all == part_views(parts@),
            r@ == joined(all.take(i as int)),
        decreases parts@.len() - i,
    {
        assert(all.take(i as int + 1).drop_last() =~= all.take(i as int));
        assert(all.take(i as int + 1).last() == parts@[i as int]@);
        let with_slash = join(&r, "/");
        r = join(&with_slash, &parts[i]);
        i += 1;
    }
    assert(all.take(all.len() as int) =~= all);
    r
}

/// Whether a character is a letter, in either case.
pub open spec fn is_letter(c: char, lower: char, upper: char) -> bool {
    c == lower || c == upper
}

/// Whether what follows the last dot of a path, or the whole path where it has none, is `json` in
/// any case.
pub open spec fn names_json(path: Seq<char>) -> bool {
    let n = path.len();
    &&& n >= 4
    &&& is_letter(path[n - 4], 'j', 'J')
    &&& is_letter(path[n - 3], 's', 'S')
    &&& is_letter(path[n - 2], 'o', 'O')
    &&& is_letter(path[n - 1], 'n', 'N')
    &&& n > 4 ==> path[n - 5] == '.'
}

/// The place of the last module of that name among the first `n`, and -1 where there is none.
pub open spec fn module_at(s: Seq<(String, String)>, name: Seq<char>, n: int) -> int
    decreases n,
{
    if n <= 0 || n > s.len() {
        -1
    } else if s[n - 1].0@ == name {
        n - 1
    } else {
        module_at(s, name, n - 1)
    }
}

/// The code of the module of that name. Of several with one name the last counts.
pub open spec fn code_of(s: Seq<(String, String)>, name: Seq<char>) -> Option<Seq<char>> {
    let at = module_at(s, name, s.len() as int);
    if 0 <= at < s.len() {
        Some(s[at].1@)
    } else {
        None
    }
}

impl FusionModuleLoader {
    /// The modules.
    pub closed spec fn view(&self) -> Seq<(String, String)> {
        self.modules@
    }

    /// Create a new [`FusionModuleLoader`] from specifiers and code.
    pub fn new(from: Vec<(String, String)>) -> (r: Self)
        ensures
            r@ == from@,
    {
        FusionModuleLoader { modules: from }
    }

    /// How the source at a path is read.
    pub fn module_type(path: &str, requested_json: bool) -> (r: ModuleType)
        ensures
            r == ModuleType::Json <==> requested_json || names_json(path@),
    {
        if requested_json {
            return ModuleType::Json;
        }
        let chars = chars_of(path);
        let n = chars.len();
        if n < 4 {
            return ModuleType::JavaScript;
        }
        let letters = (chars[n - 4] == 'j' || chars[n - 4] == 'J') && (chars[n - 3] == 's'
            || chars[n - 3] == 'S') && (chars[n - 2] == 'o' || chars[n - 2] == 'O') && (chars[n - 1]
            == 'n' || chars[n - 1] == 'N');
        if letters && (n == 4 || chars[n - 5] == '.') {
            ModuleType::Json
        } else {
            ModuleType::JavaScript
        }
    }

    /// The module whose path has those segments, and how it is read.
    pub fn load(&self, segments: &Vec<String>, requested_json: bool) -> (r: Result<
        (ModuleType, String),
        String,
    >)
        ensures
            ({
                let path = joined(part_views(segments@));
                match code_of(self@, path) {
                    None => r matches Err(e) && e@ == "Module not found"@,
                    Some(code) => r matches Ok(m) && m.1@ == code && (m.0 == ModuleType::Json
                        <==> requested_json || names_json(path)),
                }
            }),
    {
        let path = join_parts(segments);
        let module_type = FusionModuleLoader::module_type(&path, requested_json);
        let mut n: usize = self.modules.len();
        while n > 0
            invariant
                n <= self.modules@.len(),
                path@ == joined(part_views(segments@)),
                module_type == ModuleType::Json <==> requested_json || names_json(path@),
                module_at(self.modules@, path@, n as int) == module_at(
                    self.modules@,
                    path@,
                    self.modules@.len() as int,
                ),
            decreases n,
        {
            if self.modules[n - 1].0 == path {
                return Ok((module_type, self.modules[n - 1].1.clone()));
            }
            n = n - 1;
        }
        Err("Module not found".to_owned())
    }
}

} // verus!
