use vstd::prelude::*;

verus! {

/// The low half of an identifier: its value modulo 2^64.
pub fn halfuuid(id: u128) -> (half: u64)
    ensures
        half == id % 0x1_0000_0000_0000_0000,
{
    (id % 0x1_0000_0000_0000_0000u128) as u64
}

/// One value for the visiting side and one for the side at home.
#[derive(Debug, Default, Clone, Copy, PartialEq, Eq)]
pub struct AwayHome<T> {
    pub away: T,
    pub home: T,
}

impl<T> AwayHome<T> {
    /// Applies `f` to the visitors' value and, if that gave something, to the
    /// home side's; the pair of what it gave, or nothing as soon as `f` gave
    /// nothing.
    pub fn map_opt<F, U>(&self, f: F) -> (mapped: Option<AwayHome<U>>) where F: Fn(&T) -> Option<U>
        requires
            f.requires((&self.away,)),
            f.requires((&self.home,)),
        ensures
            match mapped {
                Some(pair) => f.ensures((&self.away,), Some(pair.away)) && f.ensures(
                    (&self.home,),
                    Some(pair.home),
                ),
                None => f.ensures((&self.away,), None) || f.ensures((&self.home,), None),
            },
    {
        let away = match f(&self.away) {
            Some(away) => away,
            None => {
                return None;
            },
        };
        let home = match f(&self.home) {
            Some(home) => home,
            None => {
                return None;
            },
        };
        Some(AwayHome { away, home })
    }
}

} // verus!
