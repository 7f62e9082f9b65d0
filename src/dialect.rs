//! A parsed dialect declaration.
use vstd::prelude::*;
use vstd::string::*;

use crate::error::{DialectError, ErrorView, Span};
use crate::grammar::{
    collect, entries, lemma_field, lemma_name_not_empty, parse_dialect, Collected, DialectView, FieldView,
};
use crate::input_field::{located, skip_whitespace, strings, token_span_at, InputField};

verus! {

/// A validated dialect declaration: its name, the files that define its
/// entities, the directories to search, and the environment variables that
/// name more directories, each with the span of its literal.
pub struct DialectInput {
    name: String,
    files: Vec<String>,
    directories: Vec<String>,
    directory_env_vars: Vec<(String, Span)>,
}

impl View for DialectInput {
    type V = DialectView;

    closed spec fn view(&self) -> DialectView {
        DialectView {
            name: self.name@,
            files: strings(self.files@),
            directories: strings(self.directories@),
            directory_env_vars: located(self.directory_env_vars@),
        }
    }
}

/// The entries seen so far put in front of those still to come.
spec fn after(seen: Seq<FieldView>, rest: Result<Seq<FieldView>, ErrorView>) -> Result<
    Seq<FieldView>,
    ErrorView,
> {
    match rest {
        Ok(x) => Ok(seen + x),
        Err(err) => Err(err),
    }
}

spec fn name_view(name: Option<String>) -> Option<Seq<char>> {
    match name {
        Some(x) => Some(x@),
        None => None,
    }
}

/// The model of what parsing returned.
pub open spec fn outcome(r: Result<DialectInput, DialectError>) -> Result<DialectView, ErrorView> {
    match r {
        Ok(d) => Ok(d@),
        Err(e) => Err(e@),
    }
}

/// Parsing depends on the text alone: two parses of the same text give
/// structurally equal results.
pub proof fn lemma_parse_deterministic(
    s: &str,
    t: &str,
    r1: Result<DialectInput, DialectError>,
    r2: Result<DialectInput, DialectError>,
)
    requires
        s@ == t@,
        outcome(r1) == parse_dialect(s@),
        outcome(r2) == parse_dialect(t@),
    ensures
        outcome(r1) == outcome(r2),
{
}

impl DialectInput {
    /// The dialect's name.
    pub fn name(&self) -> (r: &str)
        ensures
            r@ == self@.name,
    {
        self.name.as_str()
    }

    /// The files that define the dialect's entities, in the order given.
    pub fn files(&self) -> (r: &[String])
        ensures
            strings(r@) == self@.files,
    {
        self.files.as_slice()
    }

    /// The directories to search, in the order given.
    pub fn directories(&self) -> (r: &[String])
        ensures
            strings(r@) == self@.directories,
    {
        self.directories.as_slice()
    }

    /// The environment variables that name more directories, each with the
    /// span of its literal, in the order given.
    pub fn directory_env_vars(&self) -> (r: &[(String, Span)])
        ensures
            located(r@) == self@.directory_env_vars,
    {
        self.directory_env_vars.as_slice()
    }

    /// Parses a dialect declaration.
    ///
    /// Entries may come in any order; a key given twice keeps its last value.
    /// Without `name` it fails with `MissingRequiredField`, blamed on the whole
    /// input; an empty name fails with `MalformedScalar`, blamed on its
    /// literal; the lists default to empty.
    pub fn parse(input: &str) -> (r: Result<DialectInput, DialectError>)
        ensures
            outcome(r) == parse_dialect(input@),
            r matches Ok(d) ==> d@.name.len() > 0,
    {
        proof {
            lemma_name_not_empty(input@);
        }
        let n = input.unicode_len();
        let mut name: Option<String> = None;
        let mut files: Vec<String> = Vec::new();
        let mut directories: Vec<String> = Vec::new();
        let mut directory_env_vars: Vec<(String, Span)> = Vec::new();
        let ghost mut seen: Seq<FieldView> = seq![];
        let mut cur: usize = 0;
        assert(seq![] + entries(input@, 0)->Ok_0 =~= entries(input@, 0)->Ok_0);
        assert(strings(files@) =~= seq![]);
        assert(strings(directories@) =~= seq![]);
        assert(located(directory_env_vars@) =~= seq![]);
        loop
            invariant_except_break
                cur <= n,
                entries(input@, 0) == after(seen, entries(input@, cur as int)),
            invariant
                n == input@.len(),
                collect(seen) == (Collected {
                    name: name_view(name),
                    files: strings(files@),
                    directories: strings(directories@),
                    directory_env_vars: located(directory_env_vars@),
                }),
            ensures
                entries(input@, 0) == Ok::<_, ErrorView>(seen),
            decreases n - cur,
        {
            let j = skip_whitespace(input, n, cur);
            if j >= n {
                assert(seen + seq![] =~= seen);
                break;
            }
            let (f, k) = match InputField::parse(input, j) {
                Ok(x) => x,
                Err(e) => {
                    return Err(e);
                },
            };
            proof {
                lemma_field(input@, j as int);
            }
            let ghost fv = f@;
            match f {
                InputField::Name(x) => {
                    name = Some(x);
                },
                InputField::Files(v) => {
                    files = v;
                },
                InputField::Directories(v) => {
                    directories = v;
                },
                InputField::DirectoryEnvVars(v) => {
                    directory_env_vars = v;
                },
            }
            let ghost before = seen;
            proof {
                seen = seen.push(fv);
                assert(seen.drop_last() =~= before);
            }
            let c = skip_whitespace(input, n, k);
            if c >= n {
                assert(before + seq![fv] =~= seen);
                break;
            }
            if input.get_char(c) == ',' {
                proof {
                    match entries(input@, c + 1) {
                        Ok(x) => {
                            assert(before + (seq![fv] + x) =~= seen + x);
                        },
                        Err(_) => {},
                    }
                }
                cur = c + 1;
            } else {
                return Err(DialectError::UnexpectedToken { location: token_span_at(input, n, c) });
            }
        }
        match name {
            None => Err(
                DialectError::MissingRequiredField {
                    field: "name".to_owned(),
                    location: Span { start: 0, end: n },
                },
            ),
            Some(name) => Ok(DialectInput { name, files, directories, directory_env_vars }),
        }
    }
}

} // verus!
