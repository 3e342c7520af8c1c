//! The registry of the active store: the path that commands use when none
//! is given.
use vstd::prelude::*;

verus! {

/// The path used when no active store was ever set: `./default.tusk`.
pub open spec fn default_store_path() -> Seq<char> {
    seq!['.', '/', 'd', 'e', 'f', 'a', 'u', 'l', 't', '.', 't', 'u', 's', 'k']
}

/// The active store's path, given what was set (`None` if nothing was).
pub open spec fn active_path(set: Option<Seq<char>>) -> Seq<char> {
    match set {
        Some(p) => p,
        None => default_store_path(),
    }
}

/// The path that a command works on: the one given for it, else the active
/// store's.
pub open spec fn resolved(set: Option<Seq<char>>, explicit: Option<Seq<char>>) -> Seq<char> {
    match explicit {
        Some(p) => p,
        None => active_path(set),
    }
}

/// The active path that a configuration record sets: none for an absent or
/// empty record.
pub open spec fn configured(record: Option<Seq<char>>) -> Option<Seq<char>> {
    match record {
        Some(p) => if p.len() > 0 {
            Some(p)
        } else {
            None
        },
        None => None,
    }
}

/// The text an optional string holds.
pub open spec fn text_of(o: Option<String>) -> Option<Seq<char>> {
    match o {
        Some(p) => Some(p@),
        None => None,
    }
}

/// What a registry records after a switch to `path`, whatever it held before.
pub open spec fn switched(set: Option<Seq<char>>, path: Seq<char>) -> Option<Seq<char>> {
    Some(path)
}

/// What the registry records: the path set as active, if any.
pub struct StoreRegistry {
    active: Option<String>,
}

impl View for StoreRegistry {
    type V = Option<Seq<char>>;

    closed spec fn view(&self) -> Option<Seq<char>> {
        match self.active {
            Some(p) => Some(p@),
            None => None,
        }
    }
}

impl StoreRegistry {
    /// A registry in which no active store was ever set.
    pub fn new() -> (r: StoreRegistry)
        ensures
            r@ is None,
    {
        StoreRegistry { active: None }
    }

    /// The registry that a configuration record describes: the record holds
    /// the active path; an empty or absent record sets none.
    pub fn from_config(record: Option<String>) -> (r: StoreRegistry)
        ensures
            r@ == configured(text_of(record)),
    {
        match record {
            Some(p) => if p.as_str().is_empty() {
                StoreRegistry { active: None }
            } else {
                StoreRegistry { active: Some(p) }
            },
            None => StoreRegistry { active: None },
        }
    }

    /// Makes `path` the active store. The path need not hold a store yet.
    pub fn set_active_path(&mut self, path: String)
        ensures
            final(self)@ == switched(old(self)@, path@),
    {
        self.active = Some(path);
    }

    /// The path that a command works on: `explicit` if given, else the active
    /// store's path. The registry is not changed.
    pub fn resolve(&self, explicit: Option<String>) -> (r: String)
        ensures
            r@ == resolved(self@, text_of(explicit)),
    {
        match explicit {
            Some(p) => p,
            None => get_current_store_path(self),
        }
    }
}

/// The active store's path: the one last set, else `./default.tusk`.
pub fn get_current_store_path(registry: &StoreRegistry) -> (r: String)
    ensures
        r@ == active_path(registry@),
{
    match &registry.active {
        Some(p) => p.clone(),
        None => {
            proof {
                reveal_strlit("./default.tusk");
            }
            "./default.tusk".to_owned()
        },
    }
}

/// After a switch to `path`, a command that gives no path works on `path`.
pub proof fn lemma_switch_then_view(set: Option<Seq<char>>, path: Seq<char>)
    ensures
        resolved(switched(set, path), None) == path,
        active_path(switched(set, path)) == path,
{
}

} // verus!
