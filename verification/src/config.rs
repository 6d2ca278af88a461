//! The project configuration: which providers and resources a directory
//! declares, and in which file it declares them.

use vstd::prelude::*;
use crate::hcl::{
    after, parse_terraform_config, resource_list_spec, validate_hcl_syntax, validate_spec,
    SyntaxError,
};
use crate::text::{
    chars_of, contains_subseq, find, has_subseq, scan_run, subvec, texts, CharClass,
};

verus! {

/// The providers and resources that a project declares.
pub struct Config {
    pub provider: Vec<String>,
    pub resource: Vec<String>,
    pub resources: Vec<String>,
}

/// The mathematical content of a [`Config`].
pub struct ConfigModel {
    pub provider: Seq<Seq<char>>,
    pub resource: Seq<Seq<char>>,
    pub resources: Seq<Seq<char>>,
}

impl View for Config {
    type V = ConfigModel;

    open spec fn view(&self) -> ConfigModel {
        ConfigModel {
            provider: texts(self.provider@),
            resource: texts(self.resource@),
            resources: texts(self.resources@),
        }
    }
}

/// The formats in which a configuration file may be written, in the order
/// in which they are looked for.
#[derive(Clone, Copy, Debug, PartialEq, Eq, Structural)]
pub enum ConfigFormat {
    Hcl,
    Yaml,
    Json,
}

/// How many of the lines of `text` hold `word`.
pub open spec fn lines_with(text: Seq<char>, word: Seq<char>) -> nat
    decreases text.len(),
{
    if text.len() == 0 {
        0
    } else {
        let eol = find(text, CharClass::Is('\n'));
        let rest = lines_with(after(text, eol), word);
        if has_subseq(text.take(eol), word) {
            rest + 1
        } else {
            rest
        }
    }
}

/// `n` copies of `word`.
pub open spec fn copies(word: Seq<char>, n: nat) -> Seq<Seq<char>> {
    Seq::new(n, |i: int| word)
}

/// What a first reading of a block-structured text declares: provider
/// `aws` once for each line that mentions a provider, and resource
/// `aws_instance` once for each line that mentions a resource.
pub open spec fn basic_config(text: Seq<char>) -> ConfigModel {
    ConfigModel {
        provider: copies("aws"@, lines_with(text, "provider"@)),
        resource: copies("aws_instance"@, lines_with(text, "resource"@)),
        resources: copies("aws_instance"@, lines_with(text, "resource"@)),
    }
}

/// A copy of `v`.
pub fn clone_strings(v: &Vec<String>) -> (r: Vec<String>)
    ensures
        texts(r@) == texts(v@),
{
    let mut r: Vec<String> = Vec::new();
    let mut i: usize = 0;
    while i < v.len()
        invariant
            i <= v.len(),
            r@.len() == i,
            forall|j: int| 0 <= j < i ==> (#[trigger] r@[j])@ == v@[j]@,
        decreases v.len() - i,
    {
        r.push(v[i].clone());
        i = i + 1;
    }
    assert(texts(r@) =~= texts(v@));
    r
}

/// `word`, once for each line of `text` that holds `mark`.
fn one_per_line(text: &Vec<char>, mark: &str, word: &str) -> (r: Vec<String>)
    ensures
        texts(r@) == copies(word@, lines_with(text@, mark@)),
{
    let needle = chars_of(mark);
    let mut r: Vec<String> = Vec::new();
    let mut pos: usize = 0;
    assert(text@.skip(0) =~= text@);
    while pos < text.len()
        invariant
            pos <= text.len(),
            needle@ == mark@,
            forall|j: int| 0 <= j < r@.len() ==> (#[trigger] r@[j])@ == word@,
            lines_with(text@, mark@) == r@.len() + lines_with(text@.skip(pos as int), mark@),
        decreases text.len() - pos,
    {
        let ghost rest = text@.skip(pos as int);
        let n = scan_run(text, pos, CharClass::Is('\n'), false);
        let eol = pos + n;
        let line = subvec(text, pos, eol);
        let next = if eol < text.len() {
            eol + 1
        } else {
            eol
        };
        proof {
            assert(line@ =~= rest.take(n as int));
            assert(text@.skip(next as int) =~= after(rest, n as int));
        }
        if contains_subseq(&line, &needle) {
            r.push(word.to_owned());
        }
        pos = next;
    }
    assert(texts(r@) =~= copies(word@, lines_with(text@, mark@)));
    r
}

/// Reads a block-structured text without parsing it: see [`basic_config`].
pub fn parse_hcl_basic(content: &str) -> (r: Config)
    ensures
        r@ == basic_config(content@),
{
    let text = chars_of(content);
    let provider = one_per_line(&text, "provider", "aws");
    let resources = one_per_line(&text, "resource", "aws_instance");
    let resource = clone_strings(&resources);
    Config { provider, resource, resources }
}

/// The model of a configuration, or of the error in its place.
pub open spec fn config_result(r: Result<Config, SyntaxError>) -> Result<ConfigModel, SyntaxError> {
    match r {
        Ok(c) => Ok(c@),
        Err(e) => Err(e),
    }
}

/// What a checked and parsed configuration text declares: the provider
/// `aws`, and the resources of its resource blocks.
pub open spec fn load_config_spec(text: Seq<char>) -> Result<ConfigModel, SyntaxError> {
    match validate_spec(text) {
        Err(e) => Err(e),
        Ok(_) => match resource_list_spec(text) {
            Err(e) => Err(e),
            Ok(ids) => Ok(ConfigModel { provider: seq!["aws"@], resource: ids, resources: ids }),
        },
    }
}

impl Config {
    /// A configuration that declares nothing.
    pub fn empty() -> (r: Config)
        ensures
            r@ == (ConfigModel {
                provider: Seq::empty(),
                resource: Seq::empty(),
                resources: Seq::empty(),
            }),
    {
        let r = Config { provider: Vec::new(), resource: Vec::new(), resources: Vec::new() };
        assert(texts(r.provider@) =~= Seq::<Seq<char>>::empty());
        assert(texts(r.resource@) =~= Seq::<Seq<char>>::empty());
        assert(texts(r.resources@) =~= Seq::<Seq<char>>::empty());
        r
    }

    /// Builds the configuration from the contents of a block-structured
    /// file: the text is checked, then its resource blocks are listed.
    pub fn load_config(contents: &str) -> (r: Result<Config, SyntaxError>)
        ensures
            config_result(r) == load_config_spec(contents@),
    {
        match validate_hcl_syntax(contents) {
            Err(e) => Err(e),
            Ok(_) => match parse_terraform_config(contents) {
                Err(e) => Err(e),
                Ok(resources) => {
                    let mut provider: Vec<String> = Vec::new();
                    provider.push("aws".to_owned());
                    assert(texts(provider@) =~= seq!["aws"@]);
                    let resource = clone_strings(&resources);
                    Ok(Config { provider, resource, resources })
                },
            },
        }
    }
}

/// The format of the configuration file to read, given which of the files
/// exist: the first of block-structured, YAML and JSON that is there.
pub fn choose_format(has_hcl: bool, has_yaml: bool, has_json: bool) -> (r: Option<ConfigFormat>)
    ensures
        has_hcl ==> r == Some(ConfigFormat::Hcl),
        !has_hcl && has_yaml ==> r == Some(ConfigFormat::Yaml),
        !has_hcl && !has_yaml && has_json ==> r == Some(ConfigFormat::Json),
        !has_hcl && !has_yaml && !has_json ==> r is None,
{
    if has_hcl {
        Some(ConfigFormat::Hcl)
    } else if has_yaml {
        Some(ConfigFormat::Yaml)
    } else if has_json {
        Some(ConfigFormat::Json)
    } else {
        None
    }
}

/// The name of the configuration file in the given format.
pub fn config_file_name(format: ConfigFormat) -> (r: String)
    ensures
        r@ == (match format {
            ConfigFormat::Hcl => "fleetform.hcl"@,
            ConfigFormat::Yaml => "fleetform.yaml"@,
            ConfigFormat::Json => "fleetform.json"@,
        }),
{
    match format {
        ConfigFormat::Hcl => "fleetform.hcl".to_owned(),
        ConfigFormat::Yaml => "fleetform.yaml".to_owned(),
        ConfigFormat::Json => "fleetform.json".to_owned(),
    }
}

} // verus!
