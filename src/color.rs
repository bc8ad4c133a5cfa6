//! The colour palettes a user can pick by name.
use vstd::prelude::*;

verus! {

/// A palette flavour.
#[derive(Clone, Copy, Debug, PartialEq, Eq, Structural)]
pub enum ColorVariant {
    Mocha,
    Frappe,
    Latte,
    Macchiato,
}

/// The flavour a name picks; any unknown name picks `Mocha`.
pub open spec fn variant_named(s: Seq<char>) -> ColorVariant {
    if s == seq!['l', 'a', 't', 't', 'e'] {
        ColorVariant::Latte
    } else if s == seq!['f', 'r', 'a', 'p', 'p', 'e'] {
        ColorVariant::Frappe
    } else if s == seq!['m', 'a', 'c', 'c', 'h', 'i', 'a', 't', 'o'] {
        ColorVariant::Macchiato
    } else {
        ColorVariant::Mocha
    }
}

fn same_text(a: &str, b: &str) -> (r: bool)
    ensures
        r == (a@ == b@),
{
    let n = a.unicode_len();
    if n != b.unicode_len() {
        return false;
    }
    let mut i: usize = 0;
    while i < n
        invariant
            n == a@.len() == b@.len(),
            i <= n,
            forall|k: int| 0 <= k < i ==> a@[k] == b@[k],
        decreases n - i,
    {
        if a.get_char(i) != b.get_char(i) {
            return false;
        }
        i = i + 1;
    }
    assert(a@ =~= b@);
    true
}

impl ColorVariant {
    /// Picks the flavour by its lower-case name; an unknown name picks the
    /// default, `Mocha`.
    pub fn from_name(s: &str) -> (r: ColorVariant)
        ensures
            r == variant_named(s@),
    {
        proof {
            reveal_strlit("latte");
            reveal_strlit("frappe");
            reveal_strlit("macchiato");
            assert("latte"@ =~= seq!['l', 'a', 't', 't', 'e']);
            assert("frappe"@ =~= seq!['f', 'r', 'a', 'p', 'p', 'e']);
            assert("macchiato"@ =~= seq!['m', 'a', 'c', 'c', 'h', 'i', 'a', 't', 'o']);
        }
        if same_text(s, "latte") {
            ColorVariant::Latte
        } else if same_text(s, "frappe") {
            ColorVariant::Frappe
        } else if same_text(s, "macchiato") {
            ColorVariant::Macchiato
        } else {
            ColorVariant::Mocha
        }
    }
}

impl Default for ColorVariant {
    fn default() -> (r: ColorVariant)
        ensures
            r == ColorVariant::Mocha,
    {
        ColorVariant::Mocha
    }
}

impl std::str::FromStr for ColorVariant {
    type Err = String;

    fn from_str(s: &str) -> Result<ColorVariant, String> {
        Ok(ColorVariant::from_name(s))
    }
}

} // verus!
