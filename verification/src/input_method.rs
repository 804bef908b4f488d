//! Turning the system input method off while reading and back on after.

use vstd::prelude::*;

use crate::search::{char_range_for, regex_compiles, regex_group, SearchRegex};
use crate::strings::string_from_chars;
use crate::strings::str_chars;

verus! {

/// An input method that the reader can switch on and off.
pub trait InputMethod {
    fn is_active(&self) -> bool;

    fn set_active(&mut self, active: Option<bool>, update_restore: bool);
}

/// What setting an input method does, given the state to restore (`restore`) and the state
/// it is in (`is_active`): the state to switch it to, if it must switch (to `active`, or
/// back to `restore` when `active` is `None`), and the state to restore from then on (the
/// current one when `update_restore`).
pub fn switch_input_method(restore: bool, is_active: bool, active: Option<bool>,
    update_restore: bool) -> (r: (Option<bool>, bool))
    ensures
        r.0 == (match active {
            Some(a) => if a != is_active {
                Some(a)
            } else {
                None
            },
            None => if restore != is_active {
                Some(restore)
            } else {
                None
            },
        }),
        r.1 == (if update_restore {
            is_active
        } else {
            restore
        }),
{
    let switch_to = match active {
        Some(a) => if a != is_active {
            Some(a)
        } else {
            None
        },
        None => if restore != is_active {
            Some(restore)
        } else {
            None
        },
    };
    let new_restore = if update_restore {
        is_active
    } else {
        restore
    };
    (switch_to, new_restore)
}

/// The pattern of an `XMODIFIERS` value that names an input method.
pub open spec fn xmodifiers_pattern() -> Seq<char> {
    "^@im=(.+)$"@
}

/// The input method that an `XMODIFIERS` value names: the first capture group of
/// `xmodifiers_pattern` in it.
pub open spec fn im_name_spec(xmodifiers: Seq<char>) -> Option<Seq<char>> {
    if regex_compiles(xmodifiers_pattern()) {
        match char_range_for(xmodifiers, regex_group(xmodifiers_pattern(), xmodifiers, 1)) {
            Some((s, e)) => if s <= e {
                Some(xmodifiers.subrange(s, e))
            } else {
                None
            },
            None => None,
        }
    } else {
        None
    }
}

/// The name of the input method that the `XMODIFIERS` value `xmodifiers` names.
pub fn im_name(xmodifiers: &str) -> (r: Option<String>)
    ensures
        match r {
            Some(n) => im_name_spec(xmodifiers@) == Some(n@),
            None => im_name_spec(xmodifiers@) is None,
        },
{
    let pattern = "^@im=(.+)$";
    let re = match SearchRegex::new(pattern) {
        Ok(re) => re,
        Err(_) => return None,
    };
    match re.group(xmodifiers, 1) {
        Some((s, e)) => {
            if s > e {
                return None;
            }
            let chars = str_chars(xmodifiers);
            let mut name: Vec<char> = Vec::new();
            let mut i = s;
            while i < e
                invariant
                    s <= i <= e <= chars@.len(),
                    name@ == chars@.subrange(s as int, i as int),
                decreases e - i,
            {
                name.push(chars[i]);
                i = i + 1;
                assert(name@ =~= chars@.subrange(s as int, i as int));
            }
            Some(string_from_chars(&name))
        },
        None => None,
    }
}

} // verus!
