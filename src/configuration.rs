//! Formatter configuration: the known languages, their file extensions and
//! indentation strings.
use vstd::prelude::*;

verus! {

/// Why a configuration request failed.
#[derive(Debug)]
pub enum ConfigError {
    /// An explicitly named configuration file does not exist.
    FileNotFound(String),
    /// No language of that name is configured.
    UnsupportedLanguage(String),
}

/// What the formatter needs to know of one language.
#[derive(Debug, Clone)]
pub struct Language {
    /// The name the language is looked up by.
    pub name: String,
    /// File extensions that select this language.
    pub extensions: Vec<String>,
    /// The indentation string; two spaces when absent.
    pub indent: Option<String>,
}

/// The configured languages.
#[derive(Debug)]
pub struct Serialisation {
    pub language: Vec<Language>,
}

/// A configuration with human-readable notes on where it came from.
#[derive(Debug)]
pub struct Configuration {
    pub annotations: String,
    pub configuration: Serialisation,
}

/// Whether some string of `v` holds the characters `e`.
pub open spec fn in_strings(v: Seq<String>, e: Seq<char>) -> bool {
    exists|k: int| 0 <= k < v.len() && (#[trigger] v[k])@ == e
}

/// Whether `langs` lists an extension `e` for some language.
pub open spec fn has_extension(langs: Seq<Language>, e: Seq<char>) -> bool
    decreases langs.len(),
{
    langs.len() > 0 && (has_extension(langs.drop_last(), e) || in_strings(langs.last().extensions@, e))
}

proof fn lemma_in_strings_push(v: Seq<String>, x: String, e: Seq<char>)
    ensures
        in_strings(v.push(x), e) == (in_strings(v, e) || x@ == e),
{
    if in_strings(v.push(x), e) {
        let k = choose|k: int| 0 <= k < v.push(x).len() && (#[trigger] v.push(x)[k])@ == e;
        if k < v.len() {
            assert(v[k] == v.push(x)[k]);
        }
    }
    if in_strings(v, e) {
        let k = choose|k: int| 0 <= k < v.len() && (#[trigger] v[k])@ == e;
        assert(v.push(x)[k] == v[k]);
    }
    if x@ == e {
        assert(v.push(x)[v.len() as int] == x);
    }
}

/// Whether the strings of `v` are pairwise distinct.
pub open spec fn distinct_strings(v: Seq<String>) -> bool {
    forall|a: int, b: int| 0 <= a < b < v.len() ==> (#[trigger] v[a])@ != (#[trigger] v[b])@
}

/// The index of the first language named `name` among the first `n`, if any.
pub open spec fn first_named(langs: Seq<Language>, name: Seq<char>, n: int) -> Option<int>
    decreases n,
{
    if n <= 0 {
        None
    } else {
        match first_named(langs, name, n - 1) {
            Some(k) => Some(k),
            None => if langs[n - 1].name@ == name {
                Some(n - 1)
            } else {
                None
            },
        }
    }
}

fn contains_string(v: &Vec<String>, s: &String) -> (r: bool)
    ensures
        r == exists|k: int| 0 <= k < v@.len() && (#[trigger] v@[k])@ == s@,
{
    let mut k: usize = 0;
    while k < v.len()
        invariant
            k <= v@.len(),
            forall|j: int| 0 <= j < k ==> (#[trigger] v@[j])@ != s@,
        decreases v@.len() - k,
    {
        if v[k] == *s {
            return true;
        }
        k = k + 1;
    }
    false
}

/// The base name of the query file for a language, for the languages the
/// formatter ships queries for.
pub open spec fn query_name_of(name: Seq<char>) -> Option<Seq<char>> {
    if name == "bash"@ {
        Some("bash"@)
    } else if name == "json"@ {
        Some("json"@)
    } else if name == "nickel"@ {
        Some("nickel"@)
    } else if name == "ocaml"@ || name == "ocaml_interface"@ {
        Some("ocaml"@)
    } else if name == "ocamllex"@ {
        Some("ocamllex"@)
    } else if name == "rust"@ {
        Some("rust"@)
    } else if name == "toml"@ {
        Some("toml"@)
    } else if name == "tree_sitter_query"@ {
        Some("tree-sitter-query"@)
    } else {
        None
    }
}

fn same_str(a: &str, b: &str) -> (r: bool)
    ensures
        r == (a@ == b@),
{
    a.to_owned() == b.to_owned()
}

impl Language {
    /// The base name (without extension) of this language's query file; fails
    /// with `UnsupportedLanguage` for a language without shipped queries.
    pub fn query_name(&self) -> (r: Result<&'static str, ConfigError>)
        ensures
            match r {
                Ok(q) => query_name_of(self.name@) == Some(q@),
                Err(ConfigError::UnsupportedLanguage(n)) => n@ == self.name@ && query_name_of(
                    self.name@,
                ) is None,
                Err(_) => false,
            },
    {
        let name = self.name.as_str();
        if same_str(name, "bash") {
            Ok("bash")
        } else if same_str(name, "json") {
            Ok("json")
        } else if same_str(name, "nickel") {
            Ok("nickel")
        } else if same_str(name, "ocaml") || same_str(name, "ocaml_interface") {
            Ok("ocaml")
        } else if same_str(name, "ocamllex") {
            Ok("ocamllex")
        } else if same_str(name, "rust") {
            Ok("rust")
        } else if same_str(name, "toml") {
            Ok("toml")
        } else if same_str(name, "tree_sitter_query") {
            Ok("tree-sitter-query")
        } else {
            Err(ConfigError::UnsupportedLanguage(self.name.clone()))
        }
    }

    /// The indentation string: the configured one, else two spaces.
    pub fn indent(&self) -> (r: &str)
        ensures
            r@ == match self.indent {
                Some(i) => i@,
                None => "  "@,
            },
    {
        match &self.indent {
            Some(indent) => indent.as_str(),
            None => "  ",
        }
    }
}

impl Serialisation {
    /// A configuration with no languages.
    pub fn new() -> (r: Serialisation)
        ensures
            r.language@.len() == 0,
    {
        Serialisation { language: Vec::new() }
    }

    /// Every extension of every language, each once.
    pub fn known_extensions(&self) -> (r: Vec<String>)
        ensures
            distinct_strings(r@),
            forall|e: Seq<char>| #[trigger] in_strings(r@, e) == has_extension(self.language@, e),
    {
        let mut out: Vec<String> = Vec::new();
        let mut i: usize = 0;
        while i < self.language.len()
            invariant
                i <= self.language@.len(),
                distinct_strings(out@),
                forall|e: Seq<char>|
                    #[trigger] in_strings(out@, e) == has_extension(self.language@.subrange(0, i as int), e),
            decreases self.language@.len() - i,
        {
            let exts = &self.language[i].extensions;
            let mut j: usize = 0;
            proof {
                assert forall|e: Seq<char>| #[trigger] in_strings(exts@.subrange(0, 0), e) == false by {}
            }
            while j < exts.len()
                invariant
                    i < self.language@.len(),
                    exts == &self.language@[i as int].extensions,
                    j <= exts@.len(),
                    distinct_strings(out@),
                    forall|e: Seq<char>|
                        #[trigger] in_strings(out@, e) == (has_extension(
                            self.language@.subrange(0, i as int),
                            e,
                        ) || in_strings(exts@.subrange(0, j as int), e)),
                decreases exts@.len() - j,
            {
                let ghost before = out@;
                let present = contains_string(&out, &exts[j]);
                proof {
                    assert(exts@.subrange(0, j + 1) =~= exts@.subrange(0, j as int).push(exts@[j as int]));
                }
                if !present {
                    out.push(exts[j].clone());
                    assert forall|a: int, b: int| 0 <= a < b < out@.len() implies (
                    #[trigger] out@[a])@ != (#[trigger] out@[b])@ by {
                        if b == out@.len() - 1 {
                            assert(out@[a] == before[a]);
                        } else {
                            assert(out@[a] == before[a] && out@[b] == before[b]);
                        }
                    }
                }
                assert forall|e: Seq<char>|
                    #[trigger] in_strings(out@, e) == (has_extension(
                        self.language@.subrange(0, i as int),
                        e,
                    ) || in_strings(exts@.subrange(0, j + 1), e)) by {
                    lemma_in_strings_push(exts@.subrange(0, j as int), exts@[j as int], e);
                    if !present {
                        lemma_in_strings_push(before, exts@[j as int], e);
                    } else if exts@[j as int]@ == e {
                        let k = choose|k: int| 0 <= k < before.len() && (#[trigger] before[k])@ == exts@[j as int]@;
                        assert(in_strings(before, e));
                    }
                }
                j = j + 1;
            }
            proof {
                assert(exts@.subrange(0, j as int) =~= exts@);
                assert(self.language@.subrange(0, i + 1).drop_last() =~= self.language@.subrange(0, i as int));
            }
            i = i + 1;
        }
        assert(self.language@.subrange(0, i as int) =~= self.language@);
        out
    }

    /// The first language named `name`.
    pub fn get_language(&self, name: &str) -> (r: Result<&Language, ConfigError>)
        ensures
            match r {
                Ok(l) => first_named(self.language@, name@, self.language@.len() as int) matches Some(
                    k,
                ) && *l == self.language@[k],
                Err(ConfigError::UnsupportedLanguage(n)) => n@ == name@ && first_named(
                    self.language@,
                    name@,
                    self.language@.len() as int,
                ) is None,
                Err(_) => false,
            },
    {
        let target = name.to_owned();
        let mut i: usize = 0;
        while i < self.language.len()
            invariant
                i <= self.language@.len(),
                target@ == name@,
                first_named(self.language@, name@, i as int) is None,
            decreases self.language@.len() - i,
        {
            if self.language[i].name == target {
                proof {
                    lemma_first_named_stable(self.language@, name@, i + 1, self.language@.len() as int);
                }
                return Ok(&self.language[i]);
            }
            i = i + 1;
        }
        Err(ConfigError::UnsupportedLanguage(target))
    }
}

proof fn lemma_first_named_stable(langs: Seq<Language>, name: Seq<char>, m: int, n: int)
    requires
        0 <= m <= n,
        first_named(langs, name, m) is Some,
    ensures
        first_named(langs, name, n) == first_named(langs, name, m),
    decreases n - m,
{
    if n > m {
        lemma_first_named_stable(langs, name, m, n - 1);
    }
}

impl Configuration {
    /// Assembles a configuration. When a configuration file was named
    /// explicitly and does not exist, fails with `FileNotFound` and its path.
    pub fn fetch(
        file: Option<&str>,
        file_exists: bool,
        annotations: String,
        configuration: Serialisation,
    ) -> (r: Result<Configuration, ConfigError>)
        ensures
            match r {
                Ok(c) => !(file is Some && !file_exists) && c.annotations == annotations
                    && c.configuration == configuration,
                Err(ConfigError::FileNotFound(p)) => file matches Some(f) && !file_exists && p@ == f@,
                Err(_) => false,
            },
    {
        if let Some(path) = file {
            if !file_exists {
                return Err(ConfigError::FileNotFound(path.to_owned()));
            }
        }
        Ok(Configuration { annotations, configuration })
    }

    /// The first configured language named `name`.
    pub fn get_language(&self, name: &str) -> (r: Result<&Language, ConfigError>)
        ensures
            match r {
                Ok(l) => first_named(
                    self.configuration.language@,
                    name@,
                    self.configuration.language@.len() as int,
                ) matches Some(k) && *l == self.configuration.language@[k],
                Err(ConfigError::UnsupportedLanguage(n)) => n@ == name@ && first_named(
                    self.configuration.language@,
                    name@,
                    self.configuration.language@.len() as int,
                ) is None,
                Err(_) => false,
            },
    {
        self.configuration.get_language(name)
    }
}

} // verus!
