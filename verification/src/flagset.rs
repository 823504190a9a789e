use vstd::prelude::*;

use crate::expr::{flags_map, FlagError, ResolvedFlag, VariantDecl, lookup};
use crate::model::{FlagValue, Width};
use crate::resolver::{
    collect, flag_names, lemma_collect_names, lemma_resolve_unique_names, resolve, spec_collect,
    spec_resolve, variant_names,
};
use crate::width::{lemma_max_value_bounds, select_width, spec_max_value, spec_width_for_value};

verus! {

/// Every name the mapping of a resolved-flag list contains belongs to one
/// of its entries, with that entry's value.
pub proof fn lemma_flags_map_entry(rs: Seq<ResolvedFlag>, n: Seq<char>)
    requires
        flags_map(rs).contains_key(n),
    ensures
        exists|i: int|
            0 <= i < rs.len() && rs[i].name@ == n && rs[i].value == flags_map(rs)[n],
    decreases rs.len(),
{
    if rs.len() > 0 {
        if rs.last().name@ == n {
            assert(rs[rs.len() - 1].name@ == n && rs[rs.len() - 1].value == flags_map(rs)[n]);
        } else {
            lemma_flags_map_entry(rs.drop_last(), n);
            let i = choose|i: int|
                0 <= i < rs.drop_last().len() && rs.drop_last()[i].name@ == n && rs.drop_last()[
                    i
                ].value == flags_map(rs.drop_last())[n];
            assert(rs[i].name@ == n && rs[i].value == flags_map(rs)[n]);
        }
    }
}

/// A resolved flag set: the flags in the order their discriminants
/// resolved, and the backing width chosen for them. Beside the named flags
/// it always offers the two sentinel members: the empty flag and the
/// all-ones flag of the chosen width.
#[derive(Debug)]
pub struct FlagSet {
    pub flags: Vec<ResolvedFlag>,
    pub width: Width,
}

impl FlagSet {
    /// Well-formed: flag names are pairwise distinct, every value fits the
    /// backing width, and the width is the smallest that holds the largest
    /// value.
    pub open spec fn wf(self) -> bool {
        &&& flag_names(self.flags@).no_duplicates()
        &&& self.width == spec_width_for_value(spec_max_value(self.flags@))
        &&& forall|i: int|
            0 <= i < self.flags@.len() ==> self.flags@[i].value <= self.width.spec_all_ones()
    }

    /// The mapping from flag name to resolved value.
    pub open spec fn spec_map(self) -> Map<Seq<char>, u128> {
        flags_map(self.flags@)
    }

    /// The sentinel member with no flag set.
    pub fn none_flag(&self) -> (r: FlagValue)
        ensures
            r.width == self.width,
            r.bits == 0,
            r.wf(),
    {
        FlagValue { width: self.width, bits: 0 }
    }

    /// The sentinel member with every flag of the backing width set.
    pub fn all_flag(&self) -> (r: FlagValue)
        ensures
            r.width == self.width,
            r.bits == self.width.spec_all_ones(),
            r.wf(),
    {
        let mask: u128 = self.width.all_ones();
        FlagValue { width: self.width, bits: mask }
    }

    /// The named constant of one resolved flag, as a value of the chosen
    /// width.
    pub fn get(&self, name: &String) -> (r: Option<FlagValue>)
        requires
            self.wf(),
        ensures
            match r {
                Some(f) => self.spec_map().contains_key(name@) && f.width == self.width && f.bits
                    == self.spec_map()[name@] && f.wf(),
                None => !self.spec_map().contains_key(name@),
            },
    {
        match lookup(&self.flags, name) {
            Some(v) => {
                proof {
                    lemma_flags_map_entry(self.flags@, name@);
                }
                Some(FlagValue { width: self.width, bits: v })
            },
            None => None,
        }
    }

    /// The number of named flags.
    pub fn len(&self) -> (r: usize)
        ensures
            r == self.flags@.len(),
    {
        self.flags.len()
    }
}

/// The whole pipeline as one function of the source variants: collection,
/// fixpoint resolution, then width selection.
pub open spec fn spec_flags(set_name: Seq<char>, vs: Seq<VariantDecl>) -> Result<
    (Seq<ResolvedFlag>, Width),
    FlagError,
> {
    match spec_collect(vs) {
        Err(e) => Err(e),
        Ok(ds) => match spec_resolve(set_name, ds) {
            Err(e) => Err(e),
            Ok(rs) => Ok((rs, spec_width_for_value(spec_max_value(rs)))),
        },
    }
}

/// Builds the flag set declared by the given variants: collects them into
/// declarations, resolves every discriminant by fixpoint iteration, and
/// chooses the minimal backing width; or fails with the error the first
/// offending variant earns.
pub fn flags(set_name: &String, variants: Vec<VariantDecl>) -> (r: Result<FlagSet, FlagError>)
    requires
        variant_names(variants@).no_duplicates(),
    ensures
        match r {
            Ok(fs) => fs.wf() && spec_flags(set_name@, variants@) == Ok::<
                (Seq<ResolvedFlag>, Width),
                FlagError,
            >((fs.flags@, fs.width)),
            Err(e) => spec_flags(set_name@, variants@) == Err::<
                (Seq<ResolvedFlag>, Width),
                FlagError,
            >(e),
        },
{
    let ghost vs0 = variants@;
    let ds = match collect(variants) {
        Ok(ds) => ds,
        Err(e) => {
            return Err(e);
        },
    };
    proof {
        lemma_collect_names(vs0);
    }
    let ghost ds0 = ds@;
    let rs = match resolve(set_name, ds) {
        Ok(rs) => rs,
        Err(e) => {
            return Err(e);
        },
    };
    proof {
        lemma_resolve_unique_names(set_name@, ds0);
        lemma_max_value_bounds(rs@);
    }
    let width = select_width(&rs);
    Ok(FlagSet { flags: rs, width })
}

/// The mapping of a resolved-flag list contains every entry's name.
pub proof fn lemma_flags_map_contains(rs: Seq<ResolvedFlag>)
    ensures
        forall|i: int| 0 <= i < rs.len() ==> flags_map(rs).contains_key(rs[i].name@),
    decreases rs.len(),
{
    if rs.len() > 0 {
        lemma_flags_map_contains(rs.drop_last());
        assert forall|i: int| 0 <= i < rs.len() implies flags_map(rs).contains_key(
            rs[i].name@,
        ) by {
            if i < rs.len() - 1 {
                assert(rs.drop_last()[i] == rs[i]);
            }
        }
    }
}

/// When flag names are pairwise distinct, the mapping of a prefix of the
/// list is contained in the mapping of the whole list.
pub proof fn lemma_flags_map_prefix_submap(rs: Seq<ResolvedFlag>, n: int)
    requires
        flag_names(rs).no_duplicates(),
        0 <= n <= rs.len(),
    ensures
        forall|k: Seq<char>| #[trigger] flags_map(rs.take(n)).contains_key(k) ==> flags_map(
            rs,
        ).contains_key(k) && flags_map(rs)[k] == flags_map(rs.take(n))[k],
    decreases rs.len(),
{
    if n == rs.len() {
        assert(rs.take(n) =~= rs);
    } else {
        let shorter = rs.drop_last();
        assert(flag_names(shorter) =~= flag_names(rs).drop_last());
        lemma_flags_map_prefix_submap(shorter, n);
        assert(shorter.take(n) =~= rs.take(n));
        assert forall|k: Seq<char>| #[trigger] flags_map(rs.take(n)).contains_key(
            k,
        ) implies flags_map(rs).contains_key(k) && flags_map(rs)[k] == flags_map(
            rs.take(n),
        )[k] by {
            if k == rs.last().name@ {
                lemma_flags_map_entry(rs.take(n), k);
                let i = choose|i: int|
                    0 <= i < rs.take(n).len() && rs.take(n)[i].name@ == k && rs.take(n)[i].value
                        == flags_map(rs.take(n))[k];
                assert(flag_names(rs)[i] == k);
                assert(flag_names(rs)[rs.len() - 1] == k);
            }
        }
    }
}

} // verus!
