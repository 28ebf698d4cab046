//! Where the engine's system dictionary comes from.
use vstd::prelude::*;

verus! {

/// What `Path::join` returns for a UTF-8 base path and a relative name:
/// the name appended as a new component.
pub uninterp spec fn joined(base: Seq<char>, name: Seq<char>) -> Seq<char>;

/// `std::path::Path::join` on UTF-8 paths. The contract names the result,
/// a function of the two arguments; the separator rules are std's and are
/// not restated.
#[verifier::external_body]
fn path_join(base: &str, name: &str) -> (r: String)
    ensures
        r@ == joined(base@, name@),
{
    std::path::Path::new(base).join(name).to_string_lossy().into_owned()
}

/// File name of the dictionary in the user's data directory.
pub open spec fn dictionary_file_name() -> Seq<char> {
    seq!['d', 'i', 'c', 't', '.', 'b', 'i', 'n']
}

/// The user's dictionary: `dict.bin` in the data directory.
pub fn user_dictionary_path(data_dir: &str) -> (r: String)
    ensures
        r@ == joined(data_dir@, dictionary_file_name()),
{
    let name = "dict.bin";
    proof {
        reveal_strlit("dict.bin");
    }
    assert(name@ =~= dictionary_file_name());
    path_join(data_dir, name)
}

/// The system dictionary path: explicit configuration is authoritative;
/// otherwise the user's dictionary when it exists, then the dictionary
/// installed by the package, then the user's path anyway.
pub open spec fn dictionary_path_spec(
    configured: Option<Seq<char>>,
    data_dir: Option<Seq<char>>,
    user_exists: bool,
    packaged: Option<Seq<char>>,
) -> Option<Seq<char>> {
    match configured {
        Some(p) => Some(p),
        None => {
            let user = match data_dir {
                Some(d) => Some(joined(d, dictionary_file_name())),
                None => None,
            };
            if user is Some && user_exists {
                user
            } else {
                match packaged {
                    Some(p) => Some(p),
                    None => user,
                }
            }
        },
    }
}

/// Views of optional strings.
pub open spec fn opt_view(s: Option<&str>) -> Option<Seq<char>> {
    match s {
        Some(s) => Some(s@),
        None => None,
    }
}

/// Explicit configuration is authoritative; otherwise prefer the user's
/// dictionary over the read-only dictionary installed by the package.
/// `user_exists` tells whether [`user_dictionary_path`] of `data_dir`
/// exists.
pub fn system_dictionary_path(
    configured: Option<&str>,
    data_dir: Option<&str>,
    user_exists: bool,
    packaged: Option<&str>,
) -> (r: Option<String>)
    ensures
        match r {
            Some(p) => dictionary_path_spec(opt_view(configured), opt_view(data_dir), user_exists, opt_view(packaged))
                == Some(p@),
            None => dictionary_path_spec(opt_view(configured), opt_view(data_dir), user_exists, opt_view(packaged))
                is None,
        },
{
    if let Some(path) = configured {
        return Some(path.to_string());
    }
    let user = match data_dir {
        Some(dir) => Some(user_dictionary_path(dir)),
        None => None,
    };
    if user.is_some() && user_exists {
        return user;
    }
    match packaged {
        Some(p) => Some(p.to_string()),
        None => user,
    }
}

/// How conversion uses the models.
#[derive(Clone, Copy, PartialEq, Eq, Debug)]
pub enum StrategyMode {
    /// The light model alone, in the main slot.
    Light,
    /// The main model alone.
    Main,
    /// The main model, with the light model kept for beam search.
    Adaptive,
}

/// Which configured models to load for a strategy: the key for the main
/// slot and, for the adaptive strategy only, the light model's key.
pub open spec fn model_keys_spec(strategy: StrategyMode, model: Seq<char>, light_model: Seq<char>) -> (
    Seq<char>,
    Option<Seq<char>>,
) {
    match strategy {
        StrategyMode::Light => (light_model, None),
        StrategyMode::Main => (model, None),
        StrategyMode::Adaptive => (model, Some(light_model)),
    }
}

/// The `[models]` keys to load: Light runs the light model alone in the
/// main slot; only Adaptive keeps a separate light model for beam search.
pub fn model_keys(strategy: StrategyMode, model: &str, light_model: &str) -> (r: (String, Option<String>))
    ensures
        r.0@ == model_keys_spec(strategy, model@, light_model@).0,
        match r.1 {
            Some(k) => model_keys_spec(strategy, model@, light_model@).1 == Some(k@),
            None => model_keys_spec(strategy, model@, light_model@).1 is None,
        },
{
    match strategy {
        StrategyMode::Light => (light_model.to_string(), None),
        StrategyMode::Main => (model.to_string(), None),
        StrategyMode::Adaptive => (model.to_string(), Some(light_model.to_string())),
    }
}

/// Whether models should start loading: not when a converter is loaded
/// already, nor while a load is on its way.
pub fn needs_model_loading(converter_loaded: bool, loading: bool) -> (r: bool)
    ensures
        r == (!converter_loaded && !loading),
{
    !converter_loaded && !loading
}

/// What setting up the learning cache does.
#[derive(Clone, Copy, PartialEq, Eq, Debug)]
pub enum LearningCacheStep {
    /// Learning is disabled, or a cache is loaded already: nothing to do.
    Skip,
    /// Load the cache from its file (starting empty if that fails).
    Load,
    /// Start with an empty cache: the file does not exist, or its path is
    /// unknown.
    Fresh,
}

/// The learning-cache setup step: nothing when learning is disabled or a
/// cache is already loaded, else load the cache file when it exists, else
/// start empty.
pub fn learning_cache_step(enabled: bool, loaded: bool, file_exists: bool) -> (r: LearningCacheStep)
    ensures
        r == (if !enabled || loaded {
            LearningCacheStep::Skip
        } else if file_exists {
            LearningCacheStep::Load
        } else {
            LearningCacheStep::Fresh
        }),
{
    if !enabled || loaded {
        LearningCacheStep::Skip
    } else if file_exists {
        LearningCacheStep::Load
    } else {
        LearningCacheStep::Fresh
    }
}

} // verus!
