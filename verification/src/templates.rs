//! Prompt templates: frontmatter splitting, variable validation, value
//! resolution, and rendering through the template engine.
//!
//! Loading template files from disk and running the rendered prompt live
//! outside.

use vstd::prelude::*;
use vstd::string::StrSliceExecFns;
use vstd::string::StringExecFns;
use crate::text::{
    chars_of, find_first, find_first_sub, str_eq, string_of, trim_exact, trim_spec, vec_range,
};

verus! {

/// Errors of template handling.
#[derive(Debug, Clone)]
pub enum TemplateError {
    /// No template has the requested name.
    NotFound(String),
    /// A template file could not be read.
    ReadError(String),
    /// The frontmatter could not be parsed.
    ParseError(String),
    /// The template engine rejected the body or the values.
    RenderError(String),
    /// A required variable was not provided.
    MissingVariable(String),
    /// The template text is not in the expected shape.
    InvalidFormat(String),
    /// A file variable could not be read.
    FileError(String),
    /// The language model failed.
    GeminiError(String),
}

/// The type of an input variable.
#[derive(Debug, Clone)]
pub enum InputVarType {
    Text,
    File,
    Number,
    Boolean,
    Choice(Vec<String>),
}

/// One input variable of a template.
#[derive(Debug, Clone)]
pub struct InputVar {
    pub name: String,
    pub description: String,
    pub var_type: InputVarType,
    pub default: Option<String>,
    pub required: bool,
}

/// A prompt template: metadata, declared variables, and the body handed to
/// the template engine.
#[derive(Debug, Clone)]
pub struct PromptTemplate {
    /// Template name, the unique identifier.
    pub name: String,
    /// Human-readable description.
    pub description: String,
    /// Model to use, if the template picks one.
    pub model: Option<String>,
    /// Declared input variables.
    pub input_variables: Vec<InputVar>,
    /// Whether JSON output is expected.
    pub json_output: bool,
    /// The template body.
    pub body: String,
    /// Path of the file the template came from, if any.
    pub source_path: Option<String>,
}

/// A variable that blocks rendering: required, without a default, and not
/// provided.
pub open spec fn var_missing(v: InputVar, provided: Seq<(String, String)>) -> bool {
    v.required && v.default is None && !has_key(provided, v.name@)
}

/// Whether some pair carries this key.
pub open spec fn has_key(pairs: Seq<(String, String)>, key: Seq<char>) -> bool {
    exists|k: int| 0 <= k < pairs.len() && (#[trigger] pairs[k]).0@ == key
}

/// The first value stored under the key, if any.
pub open spec fn lookup(pairs: Seq<(String, String)>, key: Seq<char>) -> Option<Seq<char>>
    decreases pairs.len(),
{
    if pairs.len() == 0 {
        None
    } else if pairs[0].0@ == key {
        Some(pairs[0].1@)
    } else {
        lookup(pairs.drop_first(), key)
    }
}

/// The value found by a front-to-back scan is `lookup`.
proof fn lemma_lookup_determined(pairs: Seq<(String, String)>, key: Seq<char>, k: int)
    requires
        0 <= k <= pairs.len(),
        forall|i: int| 0 <= i < k ==> (#[trigger] pairs[i]).0@ != key,
        k < pairs.len() ==> pairs[k].0@ == key,
    ensures
        k < pairs.len() ==> lookup(pairs, key) == Some(pairs[k].1@),
        k == pairs.len() ==> lookup(pairs, key) is None,
    decreases pairs.len(),
{
    if pairs.len() == 0 {
    } else if pairs[0].0@ == key {
        assert(k == 0);
    } else {
        assert(k >= 1);
        assert forall|i: int| 0 <= i < k - 1 implies (#[trigger] pairs.drop_first()[i]).0@
            != key by {
            assert(pairs.drop_first()[i] == pairs[i + 1]);
        }
        lemma_lookup_determined(pairs.drop_first(), key, k - 1);
    }
}

/// The first value stored under the key, if any.
fn lookup_value(pairs: &Vec<(String, String)>, key: &str) -> (r: Option<String>)
    ensures
        match r {
            Some(v) => lookup(pairs@, key@) matches Some(x) && x == v@,
            None => lookup(pairs@, key@) is None,
        },
{
    let n = pairs.len();
    let mut i: usize = 0;
    while i < n
        invariant
            n == pairs@.len(),
            i <= n,
            forall|k: int| 0 <= k < i ==> (#[trigger] pairs@[k]).0@ != key@,
        decreases n - i,
    {
        if str_eq(pairs[i].0.as_str(), key) {
            proof {
                lemma_lookup_determined(pairs@, key@, i as int);
            }
            return Some(pairs[i].1.clone());
        }
        i = i + 1;
    }
    proof {
        lemma_lookup_determined(pairs@, key@, n as int);
    }
    None
}

impl InputVarType {
    /// Whether this is the file type.
    pub fn is_file(&self) -> (r: bool)
        ensures
            r == (*self is File),
    {
        match self {
            InputVarType::File => true,
            _ => false,
        }
    }

    /// Whether this is the boolean type.
    pub fn is_boolean(&self) -> (r: bool)
        ensures
            r == (*self is Boolean),
    {
        match self {
            InputVarType::Boolean => true,
            _ => false,
        }
    }
}

impl PromptTemplate {
    /// The variables a caller must supply: the required ones, and those
    /// without a default that are not booleans.
    pub fn required_variables(&self) -> (r: Vec<&InputVar>)
        ensures
            ({
                let kept = self.input_variables@.filter(
                    |v: InputVar| v.required || (v.default is None && !(v.var_type is Boolean)),
                );
                &&& r@.len() == kept.len()
                &&& forall|k: int| 0 <= k < r@.len() ==> *(#[trigger] r@[k]) == kept[k]
            }),
    {
        let ghost pred = |v: InputVar| v.required || (v.default is None && !(v.var_type is
        Boolean));
        let n = self.input_variables.len();
        let mut r: Vec<&InputVar> = Vec::new();
        let mut i: usize = 0;
        proof {
            assert(self.input_variables@.subrange(0, 0).filter(pred) =~= Seq::<InputVar>::empty());
        }
        while i < n
            invariant
                n == self.input_variables@.len(),
                i <= n,
                r@.len() == self.input_variables@.subrange(0, i as int).filter(pred).len(),
                forall|k: int|
                    0 <= k < r@.len() ==> *(#[trigger] r@[k]) == self.input_variables@.subrange(
                        0,
                        i as int,
                    ).filter(pred)[k],
                pred == (|v: InputVar|
                    v.required || (v.default is None && !(v.var_type is Boolean))),
            decreases n - i,
        {
            let ghost prefix = self.input_variables@.subrange(0, i as int);
            proof {
                crate::rag::lemma_filter_push(prefix, pred, self.input_variables@[i as int]);
                assert(prefix.push(self.input_variables@[i as int])
                    =~= self.input_variables@.subrange(0, i as int + 1));
            }
            let v = &self.input_variables[i];
            let keep = v.required || (match &v.default {
                Some(_) => false,
                None => !v.var_type.is_boolean(),
            });
            if keep {
                r.push(v);
            }
            i = i + 1;
        }
        proof {
            assert(self.input_variables@.subrange(0, n as int) =~= self.input_variables@);
        }
        r
    }

    /// Check that every required variable without a default was provided;
    /// fail with `MissingVariable` naming the first one that was not.
    pub fn validate_variables(&self, provided: &Vec<(String, String)>) -> (r: Result<
        (),
        TemplateError,
    >)
        ensures
            match r {
                Ok(()) => forall|i: int|
                    0 <= i < self.input_variables@.len() ==> !var_missing(
                        #[trigger] self.input_variables@[i],
                        provided@,
                    ),
                Err(e) => e matches TemplateError::MissingVariable(s) && exists|i: int|
                    {
                        &&& 0 <= i < self.input_variables@.len()
                        &&& var_missing(#[trigger] self.input_variables@[i], provided@)
                        &&& s@ == self.input_variables@[i].name@
                        &&& forall|j: int| 0 <= j < i ==> !var_missing(self.input_variables@[j], provided@)
                    },
            },
    {
        let n = self.input_variables.len();
        let mut i: usize = 0;
        while i < n
            invariant
                n == self.input_variables@.len(),
                i <= n,
                forall|j: int|
                    0 <= j < i ==> !var_missing(#[trigger] self.input_variables@[j], provided@),
            decreases n - i,
        {
            let v = &self.input_variables[i];
            if v.required {
                let has_default = match &v.default {
                    Some(_) => true,
                    None => false,
                };
                if !has_default {
                    let found = lookup_value(provided, v.name.as_str());
                    match found {
                        Some(_) => {
                            proof {
                                lemma_lookup_some_has_key(provided@, v.name@);
                            }
                        },
                        None => {
                            proof {
                                lemma_lookup_none_no_key(provided@, v.name@);
                                assert(var_missing(self.input_variables@[i as int], provided@));
                            }
                            return Err(TemplateError::MissingVariable(v.name.clone()));
                        },
                    }
                }
            }
            i = i + 1;
        }
        Ok(())
    }
}

/// A key that `lookup` finds is present.
proof fn lemma_lookup_some_has_key(pairs: Seq<(String, String)>, key: Seq<char>)
    requires
        lookup(pairs, key) is Some,
    ensures
        has_key(pairs, key),
    decreases pairs.len(),
{
    if pairs.len() > 0 {
        if pairs[0].0@ == key {
        } else {
            lemma_lookup_some_has_key(pairs.drop_first(), key);
            let k = choose|k: int|
                0 <= k < pairs.drop_first().len() && (#[trigger] pairs.drop_first()[k]).0@ == key;
            assert(pairs[k + 1].0@ == key);
        }
    }
}

/// A key that `lookup` misses is absent.
proof fn lemma_lookup_none_no_key(pairs: Seq<(String, String)>, key: Seq<char>)
    requires
        lookup(pairs, key) is None,
    ensures
        !has_key(pairs, key),
    decreases pairs.len(),
{
    if pairs.len() > 0 {
        assert(pairs[0].0@ != key);
        lemma_lookup_none_no_key(pairs.drop_first(), key);
        if has_key(pairs, key) {
            let k = choose|k: int| 0 <= k < pairs.len() && (#[trigger] pairs[k]).0@ == key;
            assert(k >= 1);
            assert(pairs.drop_first()[k - 1].0@ == key);
        }
    }
}

/// Split template text into YAML frontmatter and body: the trimmed text must
/// open with `---`, and the frontmatter runs to the next line starting with
/// `---`; both parts are returned trimmed.
pub fn split_frontmatter(content: &str) -> (r: Result<(String, String), TemplateError>)
    ensures
        ({
            let t = trim_spec(content@);
            match r {
                Ok(p) => {
                    let rest = t.subrange(3, t.len() as int);
                    let e = find_first(rest, "\n---"@);
                    &&& t.len() >= 3
                    &&& t.subrange(0, 3) == "---"@
                    &&& e >= 0
                    &&& p.0@ == trim_spec(rest.subrange(0, e))
                    &&& p.1@ == trim_spec(rest.subrange(e + 4, rest.len() as int))
                },
                Err(e) => e matches TemplateError::InvalidFormat(_) && (t.len() < 3 || t.subrange(
                    0,
                    3,
                ) != "---"@ || find_first(t.subrange(3, t.len() as int), "\n---"@) == -1),
            }
        }),
{
    let raw = chars_of(content);
    let t = trim_exact(&raw);
    let tn = t.len();
    let marker = chars_of("---");
    let end_marker = chars_of("\n---");
    proof {
        reveal_strlit("---");
        reveal_strlit("\n---");
        assert("---"@.len() == 3);
        assert("\n---"@.len() == 4);
    }
    if tn < 3 {
        return Err(
            TemplateError::InvalidFormat(
                String::from_str("template must start with YAML frontmatter"),
            ),
        );
    }
    let head = vec_range(&t, 0, 3);
    proof {
        assert(head@ =~= t@.subrange(0, 3));
    }
    let mut matches_marker = true;
    if head[0] != '-' || head[1] != '-' || head[2] != '-' {
        matches_marker = false;
    }
    proof {
        if matches_marker {
            assert(head@ =~= "---"@);
        } else {
            assert(head@ != "---"@) by {
                if head@ == "---"@ {
                    assert(head@[0] == '-' && head@[1] == '-' && head@[2] == '-');
                }
            }
        }
    }
    if !matches_marker {
        return Err(
            TemplateError::InvalidFormat(
                String::from_str("template must start with YAML frontmatter"),
            ),
        );
    }
    let rest = vec_range(&t, 3, tn);
    proof {
        assert(rest@ =~= t@.subrange(3, t@.len() as int));
    }
    match find_first_sub(&rest, &end_marker) {
        Some(e) => {
            let fm_raw = vec_range(&rest, 0, e);
            let rl = rest.len();
            let body_raw = vec_range(&rest, e + 4, rl);
            proof {
                assert(fm_raw@ =~= rest@.subrange(0, e as int));
                assert(body_raw@ =~= rest@.subrange(e as int + 4, rest@.len() as int));
            }
            let fm = trim_exact(&fm_raw);
            let body = trim_exact(&body_raw);
            Ok((string_of(&fm), string_of(&body)))
        },
        None => Err(
            TemplateError::InvalidFormat(String::from_str("could not find end of frontmatter")),
        ),
    }
}

/// The views of a sequence of string pairs.
pub open spec fn pair_views(pairs: Seq<(String, String)>) -> Seq<(Seq<char>, Seq<char>)> {
    pairs.map_values(|p: (String, String)| (p.0@, p.1@))
}

/// Relies on `tera::Tera::add_raw_template` and `tera::Tera::render`, with
/// every value a plain string.  Nothing is assumed of the outcome: a body
/// that builds a map literal and iterates it is rendered in the engine's
/// internal hash order, so the output is not a function of the body and the
/// values alone.
#[verifier::external_body]
fn tera_render(body: &str, pairs: &Vec<(String, String)>) -> Result<String, String> {
    let mut tera = tera::Tera::new();
    if let Err(e) = tera.add_raw_template("prompt", body) {
        return Err(e.to_string());
    }
    let mut context = tera::Context::new();
    for (key, value) in pairs.iter() {
        context.insert(key.clone(), value);
    }
    tera.render("prompt", &context).map_err(|e| e.to_string())
}

/// The value rendered for one declared variable: what the caller provided,
/// or the declared default, or the empty string.
pub open spec fn resolved_value(v: InputVar, provided: Seq<(String, String)>) -> Seq<char> {
    match lookup(provided, v.name@) {
        Some(x) => x,
        None => match v.default {
            Some(d) => d@,
            None => Seq::empty(),
        },
    }
}

/// The context pairs contributed by one declared variable: its resolved
/// value; for a file variable also `<name>_content` with the supplied file
/// text, and for the variable named `file` additionally `file_content`.
pub open spec fn var_pairs(
    v: InputVar,
    provided: Seq<(String, String)>,
    files: Seq<(String, String)>,
) -> Seq<(Seq<char>, Seq<char>)> {
    seq![(v.name@, resolved_value(v, provided))] + (if v.var_type is File {
        seq![
            (
                v.name@ + "_content"@,
                match lookup(files, v.name@) {
                    Some(x) => x,
                    None => Seq::empty(),
                },
            ),
        ] + (if v.name@ == "file"@ && lookup(files, v.name@) is Some {
            seq![("file_content"@, lookup(files, v.name@).unwrap())]
        } else {
            Seq::empty()
        })
    } else {
        Seq::empty()
    })
}

/// The context pairs of all declared variables, in order.
pub open spec fn all_var_pairs(
    vars: Seq<InputVar>,
    provided: Seq<(String, String)>,
    files: Seq<(String, String)>,
) -> Seq<(Seq<char>, Seq<char>)>
    decreases vars.len(),
{
    if vars.len() == 0 {
        Seq::empty()
    } else {
        var_pairs(vars[0], provided, files) + all_var_pairs(vars.drop_first(), provided, files)
    }
}

impl PromptTemplate {
    /// Resolve the context handed to the template engine: for every declared
    /// variable its provided or default value, and for file variables the
    /// supplied file text under `<name>_content` (plus `file_content` for the
    /// variable named `file`).
    pub fn resolve_context(
        &self,
        variables: &Vec<(String, String)>,
        file_contents: &Vec<(String, String)>,
    ) -> (r: Vec<(String, String)>)
        ensures
            pair_views(r@) == all_var_pairs(self.input_variables@, variables@, file_contents@),
    {
        let n = self.input_variables.len();
        let mut pairs: Vec<(String, String)> = Vec::new();
        let mut i: usize = 0;
        let ghost all = all_var_pairs(self.input_variables@, variables@, file_contents@);
        proof {
            assert(self.input_variables@.subrange(0, n as int) =~= self.input_variables@);
        }
        while i < n
            invariant
                n == self.input_variables@.len(),
                i <= n,
                all == all_var_pairs(self.input_variables@, variables@, file_contents@),
                all == pair_views(pairs@) + all_var_pairs(
                    self.input_variables@.subrange(i as int, n as int),
                    variables@,
                    file_contents@,
                ),
            decreases n - i,
        {
            let ghost tail = self.input_variables@.subrange(i as int, n as int);
            proof {
                assert(tail.len() > 0);
                assert(tail[0] == self.input_variables@[i as int]);
                assert(tail.drop_first() =~= self.input_variables@.subrange(
                    i as int + 1,
                    n as int,
                ));
            }
            let v = &self.input_variables[i];
            let value: String = match lookup_value(variables, v.name.as_str()) {
                Some(x) => x,
                None => match &v.default {
                    Some(d) => d.clone(),
                    None => String::new(),
                },
            };
            let ghost pre = pairs@;
            pairs.push((v.name.clone(), value));
            proof {
                assert(pair_views(pairs@) =~= pair_views(pre).push(
                    (v.name@, resolved_value(self.input_variables@[i as int], variables@)),
                ));
            }
            if v.var_type.is_file() {
                let mut content_key = v.name.clone();
                content_key.append("_content");
                let content: String = match lookup_value(file_contents, v.name.as_str()) {
                    Some(x) => x,
                    None => String::new(),
                };
                let ghost pre2 = pairs@;
                pairs.push((content_key, content));
                proof {
                    assert(pair_views(pairs@) =~= pair_views(pre2).push(
                        (
                            v.name@ + "_content"@,
                            match lookup(file_contents@, v.name@) {
                                Some(x) => x,
                                None => Seq::empty(),
                            },
                        ),
                    ));
                }
                if str_eq(v.name.as_str(), "file") {
                    match lookup_value(file_contents, v.name.as_str()) {
                        Some(fc) => {
                            let ghost pre3 = pairs@;
                            pairs.push((String::from_str("file_content"), fc));
                            proof {
                                assert(pair_views(pairs@) =~= pair_views(pre3).push(
                                    ("file_content"@, lookup(file_contents@, v.name@).unwrap()),
                                ));
                            }
                        },
                        None => {},
                    }
                }
            }
            i = i + 1;
            proof {
                assert(all =~= pair_views(pairs@) + all_var_pairs(
                    self.input_variables@.subrange(i as int, n as int),
                    variables@,
                    file_contents@,
                ));
            }
        }
        proof {
            assert(self.input_variables@.subrange(n as int, n as int) =~= Seq::<InputVar>::empty());
            assert(all_var_pairs(Seq::<InputVar>::empty(), variables@, file_contents@) =~= Seq::<
                (Seq<char>, Seq<char>),
            >::empty());
            assert(all =~= pair_views(pairs@));
        }
        pairs
    }

    /// Render the template body with the resolved values of the declared
    /// variables; an engine failure becomes a render error.
    ///
    /// What is handed to the engine is pinned by `resolve_context`; the
    /// rendered text itself is not, since the engine's output for a body
    /// that iterates an unordered map can differ between two runs on the
    /// same inputs.
    pub fn render(&self, variables: &Vec<(String, String)>, file_contents: &Vec<(String, String)>)
        -> (r: Result<String, TemplateError>)
        ensures
            r matches Err(e) ==> e matches TemplateError::RenderError(_),
    {
        let pairs = self.resolve_context(variables, file_contents);
        match tera_render(self.body.as_str(), &pairs) {
            Ok(s) => Ok(s),
            Err(m) => Err(TemplateError::RenderError(m)),
        }
    }
}

/// Index of the first template with the given name, or `ts.len()`.
pub open spec fn find_tpl(ts: Seq<PromptTemplate>, name: Seq<char>) -> int
    decreases ts.len(),
{
    if ts.len() == 0 {
        0
    } else if ts[0].name@ == name {
        0
    } else {
        1 + find_tpl(ts.drop_first(), name)
    }
}

/// The index found by a front-to-back scan is `find_tpl`.
proof fn lemma_find_tpl_determined(ts: Seq<PromptTemplate>, name: Seq<char>, k: int)
    requires
        0 <= k <= ts.len(),
        forall|i: int| 0 <= i < k ==> (#[trigger] ts[i]).name@ != name,
        k < ts.len() ==> ts[k].name@ == name,
    ensures
        find_tpl(ts, name) == k,
    decreases ts.len(),
{
    if ts.len() == 0 {
    } else if ts[0].name@ == name {
        assert(k == 0);
    } else {
        assert(k >= 1);
        assert forall|i: int| 0 <= i < k - 1 implies (#[trigger] ts.drop_first()[i]).name@
            != name by {
            assert(ts.drop_first()[i] == ts[i + 1]);
        }
        lemma_find_tpl_determined(ts.drop_first(), name, k - 1);
    }
}

/// Find the first template with the given name; fails with `NotFound` when
/// no template has it.
pub fn find_template<'a>(templates: &'a Vec<PromptTemplate>, name: &str) -> (r: Result<
    &'a PromptTemplate,
    TemplateError,
>)
    ensures
        match r {
            Ok(t) => find_tpl(templates@, name@) < templates@.len() && *t == templates@[find_tpl(
                templates@,
                name@,
            )],
            Err(e) => e matches TemplateError::NotFound(s) && s@ == name@ && find_tpl(
                templates@,
                name@,
            ) == templates@.len(),
        },
{
    let n = templates.len();
    let mut i: usize = 0;
    while i < n
        invariant
            n == templates@.len(),
            i <= n,
            forall|j: int| 0 <= j < i ==> (#[trigger] templates@[j]).name@ != name@,
        decreases n - i,
    {
        if str_eq(templates[i].name.as_str(), name) {
            proof {
                lemma_find_tpl_determined(templates@, name@, i as int);
            }
            return Ok(&templates[i]);
        }
        i = i + 1;
    }
    proof {
        lemma_find_tpl_determined(templates@, name@, n as int);
    }
    Err(TemplateError::NotFound(String::from_str(name)))
}

/// The text of a small example template.
pub fn create_example_template() -> (r: String)
    ensures
        r@.len() > 0,
{
    proof {
        reveal_strlit(
            "---\nname: \"example\"\ndescription: \"An example prompt template\"\nmodel: \"gemini-2.5-pro\"\ninput_variables:\n  - name: \"topic\"\n    description: \"The topic to write about\"\n    default: \"Rust programming\"\n  - name: \"style\"\n    description: \"Writing style\"\n    default: \"concise\"\njson_output: false\n---\nWrite a brief explanation about {{ topic }} in a {{ style }} style.\n\nMake it informative and engaging.\n",
        );
    }
    String::from_str(
        "---\nname: \"example\"\ndescription: \"An example prompt template\"\nmodel: \"gemini-2.5-pro\"\ninput_variables:\n  - name: \"topic\"\n    description: \"The topic to write about\"\n    default: \"Rust programming\"\n  - name: \"style\"\n    description: \"Writing style\"\n    default: \"concise\"\njson_output: false\n---\nWrite a brief explanation about {{ topic }} in a {{ style }} style.\n\nMake it informative and engaging.\n",
    )
}

/// The text of a book-summary template.
pub fn create_book_summary_template() -> (r: String)
    ensures
        r@.len() > 0,
{
    proof {
        reveal_strlit(
            "---\nname: \"book-summary\"\ndescription: \"Summarize a book chapter-by-chapter\"\nmodel: \"gemini-2.5-pro\"\ninput_variables:\n  - name: \"style\"\n    description: \"Summary style\"\n    default: \"concise\"\n  - name: \"language\"\n    description: \"Output language\"\n    default: \"en\"\n  - name: \"file\"\n    type: \"file\"\n    description: \"Book file path\"\n    required: true\njson_output: true\n---\nYou are an expert book summarizer.\nStyle: {{ style }}\nLanguage: {{ language }}\n\nAnalyze the following book content and produce a structured JSON summary:\n\n{\n  \"title\": \"Book title\",\n  \"summary\": \"Overall summary\",\n  \"chapters\": [\n    {\n      \"title\": \"Chapter title\",\n      \"summary\": \"Chapter summary\",\n      \"key_points\": [\"point 1\", \"point 2\"]\n    }\n  ]\n}\n\nBook content:\n{{ file_content }}\n",
        );
    }
    String::from_str(
        "---\nname: \"book-summary\"\ndescription: \"Summarize a book chapter-by-chapter\"\nmodel: \"gemini-2.5-pro\"\ninput_variables:\n  - name: \"style\"\n    description: \"Summary style\"\n    default: \"concise\"\n  - name: \"language\"\n    description: \"Output language\"\n    default: \"en\"\n  - name: \"file\"\n    type: \"file\"\n    description: \"Book file path\"\n    required: true\njson_output: true\n---\nYou are an expert book summarizer.\nStyle: {{ style }}\nLanguage: {{ language }}\n\nAnalyze the following book content and produce a structured JSON summary:\n\n{\n  \"title\": \"Book title\",\n  \"summary\": \"Overall summary\",\n  \"chapters\": [\n    {\n      \"title\": \"Chapter title\",\n      \"summary\": \"Chapter summary\",\n      \"key_points\": [\"point 1\", \"point 2\"]\n    }\n  ]\n}\n\nBook content:\n{{ file_content }}\n",
    )
}

} // verus!
