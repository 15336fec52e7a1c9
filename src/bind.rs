use vstd::prelude::*;
use crate::value::str_eq;

verus! {

/// Where the value for one parameter slot of a statement comes from.
#[derive(Debug, Clone, Copy, PartialEq, Eq, Structural)]
pub enum Binding {
    /// The named parameter at this position of the named list.
    Named(usize),
    /// The positional parameter at this position.
    Positional(usize),
    /// No parameter supplies the slot.
    Unbound,
}

/// Whether a slot's name (as the statement writes it, with its `:`, `@` or
/// `$` sigil) refers to the parameter `key`, given with or without sigil.
pub open spec fn names_match(slot: Seq<char>, key: Seq<char>) -> bool {
    slot == key || (slot.len() > 0 && (slot[0] == ':' || slot[0] == '@' || slot[0] == '$')
        && slot.drop_first() == key)
}

/// Whether the named list has a parameter for the slot name.
pub open spec fn named_has(named: Seq<Seq<char>>, slot: Seq<char>) -> bool {
    exists|j: int| 0 <= j < named.len() && names_match(slot, #[trigger] named[j])
}

/// Whether a binding is the right one for slot `i` named `name`: a named
/// parameter that matches when there is one; else the positional parameter
/// at the slot's position when there is one; else none.
pub open spec fn binding_ok(
    b: Binding,
    i: int,
    name: Option<Seq<char>>,
    positional_len: int,
    named: Seq<Seq<char>>,
) -> bool {
    match name {
        Some(n) if named_has(named, n) => b matches Binding::Named(j) && j < named.len() && names_match(
            n,
            named[j as int],
        ),
        _ => if i < positional_len {
            b == Binding::Positional(i as usize)
        } else {
            b == Binding::Unbound
        },
    }
}

fn names_match_exec(slot: &str, key: &str) -> (r: bool)
    ensures
        r == names_match(slot@, key@),
{
    if str_eq(slot, key) {
        return true;
    }
    let n = slot.unicode_len();
    if n == 0 {
        return false;
    }
    let c = slot.get_char(0);
    if c != ':' && c != '@' && c != '$' {
        return false;
    }
    let rest = slot.substring_char(1, n);
    assert(rest@ =~= slot@.drop_first());
    str_eq(rest, key)
}

/// Picks, for each parameter slot of a statement (by position, with its name
/// if it has one), where its value comes from: named parameters take
/// precedence for a named slot; positional ones fill the rest by position.
pub fn bind_slots(slots: &Vec<Option<String>>, positional_len: usize, named: &Vec<String>) -> (r: Vec<Binding>)
    ensures
        r@.len() == slots@.len(),
        forall|i: int|
            0 <= i < slots@.len() ==> binding_ok(
                #[trigger] r@[i],
                i,
                match slots@[i] {
                    Some(s) => Some(s@),
                    None => None,
                },
                positional_len as int,
                named@.map_values(|k: String| k@),
            ),
{
    let ghost keys = named@.map_values(|k: String| k@);
    let mut out: Vec<Binding> = Vec::new();
    let mut i: usize = 0;
    while i < slots.len()
        invariant
            0 <= i <= slots@.len(),
            out@.len() == i,
            keys == named@.map_values(|k: String| k@),
            forall|m: int|
                0 <= m < i ==> binding_ok(
                    #[trigger] out@[m],
                    m,
                    match slots@[m] {
                        Some(s) => Some(s@),
                        None => None,
                    },
                    positional_len as int,
                    keys,
                ),
        decreases slots@.len() - i,
    {
        let mut chosen = if i < positional_len {
            Binding::Positional(i)
        } else {
            Binding::Unbound
        };
        match &slots[i] {
            None => {},
            Some(name) => {
                let mut j: usize = 0;
                while j < named.len()
                    invariant
                        0 <= j <= named@.len(),
                        keys == named@.map_values(|k: String| k@),
                        chosen matches Binding::Named(x) ==> x < named@.len() && names_match(name@, keys[x as int]),
                        !(chosen is Named) ==> (forall|m: int| 0 <= m < j ==> !names_match(name@, #[trigger] keys[m]))
                            && chosen == (if i < positional_len { Binding::Positional(i) } else { Binding::Unbound }),
                    decreases named@.len() - j,
                {
                    if !matches!(chosen, Binding::Named(_)) && names_match_exec(name.as_str(), named[j].as_str()) {
                        chosen = Binding::Named(j);
                    }
                    j = j + 1;
                }
            },
        }
        out.push(chosen);
        proof {
            assert(out@[i as int] == chosen);
        }
        i = i + 1;
    }
    out
}

} // verus!
