//! Providers: the registry addresses they are fetched from, the plugins
//! they are loaded as, and the bookkeeping of what they applied.

use vstd::prelude::*;
use crate::config::Config;
use crate::state::{State, StateModel};
use crate::text::{chars_of, push_chars, string_of, texts};

verus! {

/// The provider protocol endpoint offered to the plugin host. It holds no state.
#[derive(Clone, Copy, Debug, PartialEq, Eq, Structural)]
pub struct OpenTofuProvider {}

/// The configuration handed to `apply_changes` differs from the one the
/// source was made with.
#[derive(Clone, Copy, Debug, PartialEq, Eq, Structural)]
pub struct ConfigMismatch;

/// A source of providers, bound to one configuration.
pub struct Source {
    pub config: Config,
}

/// Whether `a` and `b` hold the same strings in the same order.
pub fn same_strings(a: &Vec<String>, b: &Vec<String>) -> (r: bool)
    ensures
        r == (texts(a@) == texts(b@)),
{
    if a.len() != b.len() {
        assert(texts(a@).len() != texts(b@).len());
        return false;
    }
    let mut i: usize = 0;
    while i < a.len()
        invariant
            i <= a.len(),
            a.len() == b.len(),
            forall|j: int| 0 <= j < i ==> a@[j]@ == b@[j]@,
        decreases a.len() - i,
    {
        if a[i] != b[i] {
            assert(texts(a@)[i as int] != texts(b@)[i as int]);
            return false;
        }
        i = i + 1;
    }
    assert(texts(a@) =~= texts(b@));
    true
}

impl Source {
    /// A source for `config`.
    pub fn new(config: Config) -> (r: Source)
        ensures
            r.config == config,
    {
        Source { config }
    }

    /// Records the resources of `config` as applied. The configuration
    /// must declare the same resources as the one the source was made
    /// with; if it does not, the state is left as it is.
    pub fn apply_changes(&self, config: &Config, state: &mut State) -> (r: Result<
        (),
        ConfigMismatch,
    >)
        ensures
            self.config@.resource == config@.resource ==> r is Ok && final(state)@ == (StateModel {
                resources: old(state)@.resources + config@.resource,
                ..old(state)@
            }),
            self.config@.resource != config@.resource ==> r is Err && final(state)@ == old(
                state,
            )@,
    {
        if !same_strings(&self.config.resource, &config.resource) {
            return Err(ConfigMismatch);
        }
        let mut i: usize = 0;
        assert(state@.resources =~= old(state)@.resources + config@.resource.take(0));
        while i < config.resource.len()
            invariant
                i <= config.resource.len(),
                state@ == (StateModel {
                    resources: old(state)@.resources + config@.resource.take(i as int),
                    ..old(state)@
                }),
            decreases config.resource.len() - i,
        {
            state.record(config.resource[i].clone());
            proof {
                assert(config@.resource.take(i + 1) =~= config@.resource.take(i as int).push(
                    config@.resource[i as int],
                ));
                assert(state@.resources =~= old(state)@.resources + config@.resource.take(i + 1));
            }
            i = i + 1;
        }
        assert(config@.resource.take(i as int) =~= config@.resource);
        Ok(())
    }

    /// The path from which the plugin of provider `name` is loaded.
    pub fn plugin_path(name: &str) -> (r: String)
        ensures
            r@ == "plugins/"@ + name@ + "-latest"@,
    {
        let mut path = chars_of("plugins/");
        let middle = chars_of(name);
        push_chars(&mut path, &middle);
        let suffix = chars_of("-latest");
        push_chars(&mut path, &suffix);
        string_of(&path)
    }

    /// The registry address of version `version` of provider `name`.
    pub fn provider_url(name: &str, version: &str) -> (r: String)
        ensures
            r@ == "https://registry.opentofu.org/v1/providers/"@ + name@ + "/"@ + version@,
    {
        let mut url = chars_of("https://registry.opentofu.org/v1/providers/");
        let middle = chars_of(name);
        push_chars(&mut url, &middle);
        let slash = chars_of("/");
        push_chars(&mut url, &slash);
        let tail = chars_of(version);
        push_chars(&mut url, &tail);
        string_of(&url)
    }
}

/// A provider that can be installed, and the version that is offered.
pub struct ProviderOffer {
    pub name: String,
    pub version: String,
}

/// The providers that can be installed: `aws` 5.0.0, `azurerm` 3.0.0 and
/// `google` 4.0.0.
pub fn list_available_providers() -> (r: Vec<ProviderOffer>)
    ensures
        r@.len() == 3,
        r@[0].name@ == "aws"@ && r@[0].version@ == "5.0.0"@,
        r@[1].name@ == "azurerm"@ && r@[1].version@ == "3.0.0"@,
        r@[2].name@ == "google"@ && r@[2].version@ == "4.0.0"@,
{
    let mut r: Vec<ProviderOffer> = Vec::new();
    r.push(ProviderOffer { name: "aws".to_owned(), version: "5.0.0".to_owned() });
    r.push(ProviderOffer { name: "azurerm".to_owned(), version: "3.0.0".to_owned() });
    r.push(ProviderOffer { name: "google".to_owned(), version: "4.0.0".to_owned() });
    r
}

/// The registry address that the stand-alone fetch asks for version
/// `version` of provider `name`.
pub fn registry_url(name: &str, version: &str) -> (r: String)
    ensures
        r@ == "https://registry.opentofu.org/providers/"@ + name@ + "/"@ + version@,
{
    let mut url = chars_of("https://registry.opentofu.org/providers/");
    let middle = chars_of(name);
    push_chars(&mut url, &middle);
    let slash = chars_of("/");
    push_chars(&mut url, &slash);
    let tail = chars_of(version);
    push_chars(&mut url, &tail);
    string_of(&url)
}

} // verus!
