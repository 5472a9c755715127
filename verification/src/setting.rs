use vstd::prelude::*;

verus! {

/// A three-valued configuration option: absent (inherit or no-op),
/// explicitly disabled (do not inherit), or set to a value.
#[derive(Debug, Clone)]
pub enum Setting<T> {
    NotSet,
    Off,
    Value(T),
}

impl<T> Setting<T> {
    /// True unless the option is absent.
    pub fn has_value(&self) -> (r: bool)
        ensures
            r == !(self is NotSet),
    {
        match self {
            Setting::NotSet => false,
            _ => true,
        }
    }

    /// True exactly when the option is set to a value.
    pub fn is_value(&self) -> (r: bool)
        ensures
            r == (self is Value),
    {
        matches!(self, Setting::Value(_))
    }

    /// True exactly when the option is absent.
    pub fn is_none(&self) -> (r: bool)
        ensures
            r == (self is NotSet),
    {
        matches!(self, Setting::NotSet)
    }

    /// True exactly when the option is explicitly disabled.
    pub fn is_off(&self) -> (r: bool)
        ensures
            r == (self is Off),
    {
        matches!(self, Setting::Off)
    }

    /// The payload of a set option; the caller must know the option is set.
    pub fn into_value(self) -> (r: T)
        requires
            self is Value,
        ensures
            self == Setting::Value(r),
    {
        match self {
            Setting::Value(val) => val,
            _ => vstd::pervasive::unreached(),
        }
    }
}

impl<T: Default> Setting<T> {
    /// The payload of a set option, or the type's default value.
    pub fn unwrap_or_default(self) -> (r: T)
        ensures
            self is Value ==> self == Setting::Value(r),
    {
        match self {
            Setting::Value(x) => x,
            _ => Default::default(),
        }
    }
}

impl<T> Default for Setting<T> {
    fn default() -> (r: Self)
        ensures
            r is NotSet,
    {
        Setting::NotSet
    }
}

} // verus!
