//! A snapshot of what the live package database answered: the packages an
//! operation asked about that are installed, each with its installed
//! version.  The snapshot reflects the database at the moment the caller
//! queried it; the library never caches one across operations.

use vstd::prelude::*;

use crate::text;

verus! {

/// One installed package as the live database reports it.
pub struct PackageIdent {
    pub name: String,
    pub version: String,
}

/// The partial map from installed package name to installed version that a
/// sequence of query results denotes; a later answer for the same name
/// overrides an earlier one.
pub open spec fn map_of(entries: Seq<PackageIdent>) -> Map<Seq<char>, Seq<char>>
    decreases entries.len(),
{
    if entries.len() == 0 {
        Map::empty()
    } else {
        map_of(entries.drop_last()).insert(entries.last().name@, entries.last().version@)
    }
}

/// Database snapshot: which of the queried names are installed, and at
/// which version.  A name outside the map was confirmed absent (or was
/// never asked about).
pub struct DbView {
    entries: Vec<PackageIdent>,
}

impl View for DbView {
    type V = Map<Seq<char>, Seq<char>>;

    closed spec fn view(&self) -> Map<Seq<char>, Seq<char>> {
        map_of(self.entries@)
    }
}

impl DbView {
    /// An empty snapshot: nothing known to be installed.
    pub fn new() -> (d: DbView)
        ensures
            d@ == Map::<Seq<char>, Seq<char>>::empty(),
    {
        DbView { entries: Vec::new() }
    }

    /// Records that the database reported `name` installed at `version`.
    pub fn record_installed(&mut self, name: &str, version: &str)
        ensures
            final(self)@ == old(self)@.insert(name@, version@),
    {
        let entry = PackageIdent { name: name.to_owned(), version: version.to_owned() };
        self.entries.push(entry);
        proof {
            assert(self.entries@.drop_last() =~= old(self).entries@);
        }
    }

    /// The installed version of `name`, or `None` when the snapshot holds
    /// it absent.
    pub fn installed_version(&self, name: &str) -> (v: Option<String>)
        ensures
            match v {
                Option::Some(ver) => self@.dom().contains(name@) && ver@ == self@[name@],
                Option::None => !self@.dom().contains(name@),
            },
    {
        let n = self.entries.len();
        let mut i: usize = n;
        proof {
            assert(self.entries@.take(n as int) =~= self.entries@);
        }
        while i > 0
            invariant
                0 <= i <= n,
                n == self.entries@.len(),
                self@.dom().contains(name@) == map_of(self.entries@.take(i as int)).dom().contains(
                    name@,
                ),
                self@.dom().contains(name@) ==> self@[name@] == map_of(
                    self.entries@.take(i as int),
                )[name@],
            decreases i,
        {
            let ghost pre = self.entries@.take(i as int);
            proof {
                assert(pre.drop_last() =~= self.entries@.take(i - 1));
                assert(pre.last() == self.entries@[i - 1]);
            }
            if text::str_eq(self.entries[i - 1].name.as_str(), name) {
                return Option::Some(self.entries[i - 1].version.clone());
            }
            i -= 1;
        }
        proof {
            assert(self.entries@.take(0) =~= Seq::<PackageIdent>::empty());
        }
        Option::None
    }

    /// Whether the snapshot holds `name` installed.
    pub fn is_installed(&self, name: &str) -> (r: bool)
        ensures
            r == self@.dom().contains(name@),
    {
        let v = self.installed_version(name);
        match v {
            Option::Some(_) => true,
            Option::None => false,
        }
    }
}

} // verus!
