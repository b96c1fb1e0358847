//! Plugin configuration values, as read from the configuration file, and
//! lookups on them.
//!
//! A plugin's arguments are a list of `(name, value)` pairs with distinct
//! names; a value is a scalar, a sequence or a mapping.

use vstd::prelude::*;
use crate::text::{chars_eq, chars_of};

verus! {

/// One configuration value.
#[derive(Debug)]
pub enum ConfigValue {
    /// An empty value (`~` or nothing).
    Null,
    /// `true` or `false`.
    Bool(bool),
    /// An integer number.
    Int(i128),
    /// A number with a fraction or exponent; its value is not read here.
    Float,
    /// A string.
    Str(String),
    /// A sequence of values.
    List(Vec<ConfigValue>),
    /// A mapping, as `(key, value)` pairs with distinct keys, in order.
    Mapping(Vec<(ConfigValue, ConfigValue)>),
}

/// The value bound to `key` among named arguments (the first binding, names
/// being distinct).
pub open spec fn arg_get(e: Seq<(String, ConfigValue)>, key: Seq<char>) -> Option<ConfigValue>
    decreases e.len(),
{
    if e.len() == 0 {
        None
    } else if e[0].0@ == key {
        Some(e[0].1)
    } else {
        arg_get(e.drop_first(), key)
    }
}

/// Whether a mapping key is the string `key`.
pub open spec fn key_is(k: ConfigValue, key: Seq<char>) -> bool {
    k matches ConfigValue::Str(s) && s@ == key
}

/// The value bound to the string key `key` in a mapping.
pub open spec fn map_get(e: Seq<(ConfigValue, ConfigValue)>, key: Seq<char>) -> Option<ConfigValue>
    decreases e.len(),
{
    if e.len() == 0 {
        None
    } else if key_is(e[0].0, key) {
        Some(e[0].1)
    } else {
        map_get(e.drop_first(), key)
    }
}

/// The integer a value holds when it fits in `i64` (`as_i64`).
pub open spec fn int_of(v: ConfigValue) -> Option<i64> {
    match v {
        ConfigValue::Int(n) => if i64::MIN <= n <= i64::MAX {
            Some(n as i64)
        } else {
            None
        },
        _ => None,
    }
}

/// The integer a value holds when it fits in `u64` (`as_u64`).
pub open spec fn uint_of(v: ConfigValue) -> Option<u64> {
    match v {
        ConfigValue::Int(n) => if 0 <= n <= u64::MAX {
            Some(n as u64)
        } else {
            None
        },
        _ => None,
    }
}

/// The text of a string value (`as_str`).
pub open spec fn str_of(v: ConfigValue) -> Option<Seq<char>> {
    match v {
        ConfigValue::Str(s) => Some(s@),
        _ => None,
    }
}

/// The truth value of a boolean value (`as_bool`).
pub open spec fn bool_of(v: ConfigValue) -> Option<bool> {
    match v {
        ConfigValue::Bool(b) => Some(b),
        _ => None,
    }
}

/// Whether a value is a number.
pub open spec fn is_number(v: ConfigValue) -> bool {
    v is Int || v is Float
}

/// Whether `s` holds exactly the characters of `lit`.
pub fn str_is(s: &String, lit: &str) -> (b: bool)
    ensures
        b == (s@ == lit@),
{
    let a = chars_of(s.as_str());
    let l = chars_of(lit);
    chars_eq(&a, &l)
}

/// Finds the value of a named argument.
pub fn get_arg<'a>(e: &'a Vec<(String, ConfigValue)>, key: &str) -> (r: Option<&'a ConfigValue>)
    ensures
        r is None <==> arg_get(e@, key@) is None,
        r matches Some(v) ==> arg_get(e@, key@) == Some(*v),
{
    let mut i: usize = 0;
    assert(e@.skip(0) =~= e@);
    while i < e.len()
        invariant
            i <= e@.len(),
            arg_get(e@, key@) == arg_get(e@.skip(i as int), key@),
        decreases e.len() - i,
    {
        assert(e@.skip(i as int).drop_first() =~= e@.skip(i + 1));
        if str_is(&e[i].0, key) {
            return Some(&e[i].1);
        }
        i = i + 1;
    }
    None
}

/// Finds the value bound to a string key in a mapping.
pub fn get_key<'a>(e: &'a Vec<(ConfigValue, ConfigValue)>, key: &str) -> (r: Option<&'a ConfigValue>)
    ensures
        r is None <==> map_get(e@, key@) is None,
        r matches Some(v) ==> map_get(e@, key@) == Some(*v),
{
    let mut i: usize = 0;
    assert(e@.skip(0) =~= e@);
    while i < e.len()
        invariant
            i <= e@.len(),
            map_get(e@, key@) == map_get(e@.skip(i as int), key@),
        decreases e.len() - i,
    {
        assert(e@.skip(i as int).drop_first() =~= e@.skip(i + 1));
        let hit = match &e[i].0 {
            ConfigValue::Str(s) => str_is(s, key),
            _ => false,
        };
        if hit {
            return Some(&e[i].1);
        }
        i = i + 1;
    }
    None
}

/// The integer of a value when it fits in `i64`.
pub fn as_i64(v: &ConfigValue) -> (r: Option<i64>)
    ensures
        r == int_of(*v),
{
    match v {
        ConfigValue::Int(n) => {
            if -0x8000_0000_0000_0000i128 <= *n && *n <= 0x7fff_ffff_ffff_ffffi128 {
                Some(*n as i64)
            } else {
                None
            }
        },
        _ => None,
    }
}

/// The integer of a value when it fits in `u64`.
pub fn as_u64(v: &ConfigValue) -> (r: Option<u64>)
    ensures
        r == uint_of(*v),
{
    match v {
        ConfigValue::Int(n) => {
            if 0 <= *n && *n <= 0xffff_ffff_ffff_ffffi128 {
                Some(*n as u64)
            } else {
                None
            }
        },
        _ => None,
    }
}

/// The truth value of a boolean value.
pub fn as_bool(v: &ConfigValue) -> (r: Option<bool>)
    ensures
        r == bool_of(*v),
{
    match v {
        ConfigValue::Bool(b) => Some(*b),
        _ => None,
    }
}

} // verus!
