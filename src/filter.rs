use vstd::prelude::*;

use crate::decimal::{decimal, push_decimal};
use crate::permission::{
    block_compatible, block_text, PartialPermissionBlock, PermissionBlock, PermissionState,
};

verus! {

/// One policy clause. Each present field is a constraint; an absent one
/// accepts anything.
#[derive(Debug, Clone, Copy, PartialEq, Eq, Structural)]
pub struct Filter {
    pub user_owner: Option<u32>,
    pub group_owner: Option<u32>,
    pub permissions: Option<PermissionBlock>,
}

/// Alternative clauses: an entry is allowed when any one of them matches.
#[derive(Debug, Clone, PartialEq)]
pub struct FilterSet {
    pub filters: Vec<Filter>,
}

/// The clause holds of an entry with this owner, group and permission bits.
pub open spec fn clause_matches(f: Filter, owner: u32, group: u32, perms: PermissionBlock) -> bool {
    &&& match f.user_owner {
        Some(u) => u == owner,
        None => true,
    }
    &&& match f.group_owner {
        Some(g) => g == group,
        None => true,
    }
    &&& match f.permissions {
        Some(p) => block_compatible(p, perms),
        None => true,
    }
}

/// Some clause of the sequence holds of the entry.
pub open spec fn set_matches(
    filters: Seq<Filter>,
    owner: u32,
    group: u32,
    perms: PermissionBlock,
) -> bool {
    exists|i: int| 0 <= i < filters.len() && clause_matches(#[trigger] filters[i], owner, group, perms)
}

/// A clause that constrains nothing.
pub open spec fn is_unconstrained(f: Filter) -> bool {
    f.user_owner is None && f.group_owner is None && f.permissions is None
}

pub open spec fn join_words(words: Seq<Seq<char>>) -> Seq<char>
    decreases words.len(),
{
    if words.len() == 0 {
        seq![]
    } else if words.len() == 1 {
        words[0]
    } else {
        join_words(words.drop_last()) + seq![' '] + words.last()
    }
}

/// The words describing a clause: `u<id>`, `g<id>` and the pattern, each
/// only where present.
pub open spec fn filter_words(f: Filter) -> Seq<Seq<char>> {
    let owner: Seq<Seq<char>> = match f.user_owner {
        Some(u) => seq![seq!['u'] + decimal(u as nat)],
        None => seq![],
    };
    let group: Seq<Seq<char>> = match f.group_owner {
        Some(g) => seq![seq!['g'] + decimal(g as nat)],
        None => seq![],
    };
    let perms: Seq<Seq<char>> = match f.permissions {
        Some(p) => seq![block_text(p)],
        None => seq![],
    };
    owner + group + perms
}

pub open spec fn filter_text(f: Filter) -> Seq<char> {
    join_words(filter_words(f))
}

pub open spec fn all_wildcard() -> PermissionBlock {
    let w = PartialPermissionBlock {
        read: PermissionState::WILDCARD,
        write: PermissionState::WILDCARD,
        execute: PermissionState::WILDCARD,
    };
    PermissionBlock { user: w, group: w, other: w }
}

/// A clause whose only constraint is an all-wildcard pattern matches every
/// entry, whatever its owner, group and permission bits.
pub proof fn lemma_wildcard_clause_matches_all(owner: u32, group: u32, perms: PermissionBlock)
    ensures
        clause_matches(
            Filter { user_owner: None, group_owner: None, permissions: Some(all_wildcard()) },
            owner,
            group,
            perms,
        ),
{
}

/// A clause that names an owner never matches an entry with another owner,
/// whatever its other fields and the entry's group and permission bits.
pub proof fn lemma_owner_mismatch_never_matches(
    f: Filter,
    owner: u32,
    group: u32,
    perms: PermissionBlock,
)
    requires
        f.user_owner is Some,
        f.user_owner->0 != owner,
    ensures
        !clause_matches(f, owner, group, perms),
{
}

/// A set of two clauses matches an entry exactly when one of the clauses
/// matches it alone, so the order of the two does not change the outcome.
pub proof fn lemma_two_clauses(a: Filter, b: Filter, owner: u32, group: u32, perms: PermissionBlock)
    ensures
        set_matches(seq![a, b], owner, group, perms) <==> (clause_matches(a, owner, group, perms)
            || clause_matches(b, owner, group, perms)),
        set_matches(seq![a, b], owner, group, perms) == set_matches(
            seq![b, a],
            owner,
            group,
            perms,
        ),
{
    let ab = seq![a, b];
    let ba = seq![b, a];
    if clause_matches(a, owner, group, perms) {
        assert(clause_matches(ab[0], owner, group, perms));
        assert(clause_matches(ba[1], owner, group, perms));
    }
    if clause_matches(b, owner, group, perms) {
        assert(clause_matches(ab[1], owner, group, perms));
        assert(clause_matches(ba[0], owner, group, perms));
    }
}

impl Filter {
    /// Whether this clause holds of an entry with the given owner, group and
    /// permission bits.
    pub fn matches(&self, owner: u32, group: u32, perms: &PermissionBlock) -> (r: bool)
        ensures
            r == clause_matches(*self, owner, group, *perms),
    {
        if let Some(u) = self.user_owner {
            if u != owner {
                return false;
            }
        }
        if let Some(g) = self.group_owner {
            if g != group {
                return false;
            }
        }
        if let Some(p) = &self.permissions {
            if !p.is_compatible(perms) {
                return false;
            }
        }
        true
    }

    /// Describes the clause as words separated by single spaces, such as
    /// `u1000 g1000 rwx------`.
    pub fn render(&self) -> (r: String)
        ensures
            r@ == filter_text(*self),
    {
        proof {
            reveal_strlit("u");
            reveal_strlit("g");
            reveal_strlit(" ");
            reveal_with_fuel(join_words, 4);
        }
        let ghost words = filter_words(*self);
        let mut out = String::new();
        let mut written: usize = 0;
        if let Some(u) = self.user_owner {
            out.append("u");
            push_decimal(u, &mut out);
            written = written + 1;
        }
        assert(out@ =~= join_words(words.take(written as int)));
        if let Some(g) = self.group_owner {
            if written > 0 {
                out.append(" ");
            }
            out.append("g");
            push_decimal(g, &mut out);
            written = written + 1;
            assert(words.take(written as int).drop_last() =~= words.take(written - 1));
        }
        assert(out@ =~= join_words(words.take(written as int)));
        if let Some(p) = &self.permissions {
            if written > 0 {
                out.append(" ");
            }
            p.render_into(&mut out);
            written = written + 1;
            assert(words.take(written as int).drop_last() =~= words.take(written - 1));
        }
        assert(words.take(written as int) =~= words);
        assert(out@ =~= join_words(words));
        out
    }
}

impl FilterSet {
    /// An empty set, which matches nothing.
    pub fn new() -> (r: Self)
        ensures
            r.filters@ == Seq::<Filter>::empty(),
    {
        FilterSet { filters: Vec::new() }
    }

    /// Appends a clause.
    pub fn add(&mut self, filter: Filter)
        ensures
            final(self).filters@ == old(self).filters@.push(filter),
    {
        self.filters.push(filter);
    }

    /// Whether some clause of the set holds of the entry.
    pub fn matches(&self, owner: u32, group: u32, perms: &PermissionBlock) -> (r: bool)
        ensures
            r == set_matches(self.filters@, owner, group, *perms),
    {
        let mut i: usize = 0;
        while i < self.filters.len()
            invariant
                i <= self.filters@.len(),
                forall|k: int| 0 <= k < i ==> !clause_matches(#[trigger] self.filters@[k], owner, group, *perms),
            decreases self.filters@.len() - i,
        {
            if self.filters[i].matches(owner, group, perms) {
                return true;
            }
            i = i + 1;
        }
        false
    }
}

} // verus!
