use vstd::prelude::*;
use vstd::utf8::is_ascii_chars;

use crate::decimal::{digits_value, is_digit};
use crate::filter::{is_unconstrained, Filter, FilterSet};
use crate::permission::{block_text, partial_text, PartialPermissionBlock, PermissionBlock, PermissionState};

verus! {

/// Why a policy text or a permission group was refused.
#[derive(Debug, Clone, Copy, PartialEq, Eq, Structural)]
pub enum ParseError {
    /// The permission group holds a character outside ASCII.
    NonAscii,
    /// The permission group is not exactly three characters long.
    InvalidLength,
    /// The character at `position` of the group is neither its letter,
    /// `-` nor `*`.
    InvalidCharacter { character: char, position: usize },
    /// An owner or group id does not fit in 32 bits.
    IdTooLarge,
    /// No clause of the policy constrains anything.
    NoValidFilter,
}

/// The letter of position `k` of a permission group.
pub open spec fn letter_at(k: int) -> char {
    if k == 0 {
        'r'
    } else if k == 1 {
        'w'
    } else {
        'x'
    }
}

pub open spec fn pattern_char_ok(c: char, letter: char) -> bool {
    c == letter || c == '-' || c == '*'
}

pub open spec fn char_state(c: char) -> PermissionState {
    if c == '*' {
        PermissionState::WILDCARD
    } else if c == '-' {
        PermissionState::UNSET
    } else {
        PermissionState::SET
    }
}

/// The group of three pattern characters that starts at `start`.
pub open spec fn group_of(s: Seq<char>, start: int) -> PartialPermissionBlock {
    PartialPermissionBlock {
        read: char_state(s[start]),
        write: char_state(s[start + 1]),
        execute: char_state(s[start + 2]),
    }
}

/// What is wrong with a permission group, if anything.
pub open spec fn group_error(c: Seq<char>) -> Option<ParseError> {
    if !is_ascii_chars(c) {
        Some(ParseError::NonAscii)
    } else if c.len() != 3 {
        Some(ParseError::InvalidLength)
    } else if !pattern_char_ok(c[0], 'r') {
        Some(ParseError::InvalidCharacter { character: c[0], position: 0 })
    } else if !pattern_char_ok(c[1], 'w') {
        Some(ParseError::InvalidCharacter { character: c[1], position: 1 })
    } else if !pattern_char_ok(c[2], 'x') {
        Some(ParseError::InvalidCharacter { character: c[2], position: 2 })
    } else {
        None
    }
}

/// The clause starts with a nine-character permission pattern.
pub open spec fn has_pattern(s: Seq<char>) -> bool {
    &&& s.len() >= 9
    &&& forall|i: int| 0 <= i < 9 ==> pattern_char_ok(#[trigger] s[i], letter_at(i % 3))
}

pub open spec fn pattern_of(s: Seq<char>) -> PermissionBlock {
    PermissionBlock { user: group_of(s, 0), group: group_of(s, 3), other: group_of(s, 6) }
}

/// Index of the first `m` at or after `i` that a digit follows.
pub open spec fn marker_from(s: Seq<char>, m: char, i: nat) -> Option<nat>
    decreases s.len() - i,
{
    if i + 1 >= s.len() {
        None
    } else if s[i as int] == m && is_digit(s[i + 1 as int]) {
        Some(i)
    } else {
        marker_from(s, m, i + 1)
    }
}

/// End of the run of digits that starts at `j`.
pub open spec fn digit_run_end(s: Seq<char>, j: nat) -> nat
    decreases s.len() - j,
{
    if j < s.len() && is_digit(s[j as int]) {
        digit_run_end(s, j + 1)
    } else {
        j
    }
}

/// The number after the first `m` that a digit follows, if any.
pub open spec fn marker_value(s: Seq<char>, m: char) -> Option<nat> {
    match marker_from(s, m, 0) {
        Some(i) => Some(digits_value(s.subrange(i + 1 as int, digit_run_end(s, i + 1) as int))),
        None => None,
    }
}

pub open spec fn id_fits(v: Option<nat>) -> bool {
    match v {
        Some(n) => n <= u32::MAX,
        None => true,
    }
}

pub open spec fn as_id(v: Option<nat>) -> Option<u32> {
    match v {
        Some(n) => Some(n as u32),
        None => None,
    }
}

/// Both ids of the clause fit in 32 bits.
pub open spec fn clause_ok(c: Seq<char>) -> bool {
    id_fits(marker_value(c, 'u')) && id_fits(marker_value(c, 'g'))
}

/// The clause that a piece of policy text denotes.
pub open spec fn clause_filter(c: Seq<char>) -> Filter {
    Filter {
        user_owner: as_id(marker_value(c, 'u')),
        group_owner: as_id(marker_value(c, 'g')),
        permissions: if has_pattern(c) {
            Some(pattern_of(c))
        } else {
            None
        },
    }
}

/// The pieces of `s` between commas.
pub open spec fn split_commas(s: Seq<char>) -> Seq<Seq<char>>
    decreases s.len(),
{
    if s.len() == 0 {
        seq![seq![]]
    } else {
        let parts = split_commas(s.drop_last());
        if s.last() == ',' {
            parts.push(seq![])
        } else {
            parts.update(parts.len() - 1, parts.last().push(s.last()))
        }
    }
}

pub open spec fn all_clauses_ok(parts: Seq<Seq<char>>) -> bool {
    forall|i: int| 0 <= i < parts.len() ==> clause_ok(#[trigger] parts[i])
}

/// The clauses of the pieces, in order, leaving out those that constrain
/// nothing.
pub open spec fn filters_of(parts: Seq<Seq<char>>) -> Seq<Filter>
    decreases parts.len(),
{
    if parts.len() == 0 {
        seq![]
    } else {
        let f = clause_filter(parts.last());
        if is_unconstrained(f) {
            filters_of(parts.drop_last())
        } else {
            filters_of(parts.drop_last()).push(f)
        }
    }
}

/// What parsing a policy text gives.
pub open spec fn parse_result(s: Seq<char>) -> Result<Seq<Filter>, ParseError> {
    let parts = split_commas(s);
    if !all_clauses_ok(parts) {
        Err(ParseError::IdTooLarge)
    } else if filters_of(parts).len() == 0 {
        Err(ParseError::NoValidFilter)
    } else {
        Ok(filters_of(parts))
    }
}

proof fn lemma_split_nonempty(s: Seq<char>)
    ensures
        split_commas(s).len() >= 1,
    decreases s.len(),
{
    if s.len() > 0 {
        lemma_split_nonempty(s.drop_last());
    }
}

/// The pieces of a prefix, but its last, are pieces of the longer prefix.
proof fn lemma_split_prefix(s: Seq<char>, j: int, k: int)
    requires
        0 <= j <= k <= s.len(),
    ensures
        split_commas(s.take(j)).len() <= split_commas(s.take(k)).len(),
        forall|x: int|
            0 <= x < split_commas(s.take(j)).len() - 1 ==> split_commas(s.take(k))[x]
                == split_commas(s.take(j))[x],
    decreases k - j,
{
    if j < k {
        lemma_split_prefix(s, j, k - 1);
        assert(s.take(k).drop_last() =~= s.take(k - 1));
        lemma_split_nonempty(s.take(k - 1));
    }
}

fn chars_of(s: &str) -> (r: Vec<char>)
    ensures
        r@ == s@,
{
    let n = s.unicode_len();
    let mut r: Vec<char> = Vec::new();
    let mut i: usize = 0;
    while i < n
        invariant
            n == s@.len(),
            i <= n,
            r@ == s@.take(i as int),
        decreases n - i,
    {
        r.push(s.get_char(i));
        i = i + 1;
        assert(r@ =~= s@.take(i as int));
    }
    assert(r@ =~= s@);
    r
}

fn is_pattern_char(c: char, letter: char) -> (r: bool)
    ensures
        r == pattern_char_ok(c, letter),
{
    c == letter || c == '-' || c == '*'
}

fn state_of_char(c: char) -> (r: PermissionState)
    ensures
        r == char_state(c),
{
    if c == '*' {
        PermissionState::WILDCARD
    } else if c == '-' {
        PermissionState::UNSET
    } else {
        PermissionState::SET
    }
}

impl PartialPermissionBlock {
    /// Reads one group of a permission pattern: exactly three ASCII
    /// characters, each its letter (`r`, `w`, `x`), `-` or `*`.
    pub fn safe_from_chars(chars: &str) -> (r: Result<Self, ParseError>)
        ensures
            match r {
                Ok(b) => group_error(chars@) is None && b == group_of(chars@, 0),
                Err(e) => group_error(chars@) == Some(e),
            },
    {
        if !chars.is_ascii() {
            return Err(ParseError::NonAscii);
        }
        if chars.unicode_len() != 3 {
            return Err(ParseError::InvalidLength);
        }
        let read = chars.get_char(0);
        if !is_pattern_char(read, 'r') {
            return Err(ParseError::InvalidCharacter { character: read, position: 0 });
        }
        let write = chars.get_char(1);
        if !is_pattern_char(write, 'w') {
            return Err(ParseError::InvalidCharacter { character: write, position: 1 });
        }
        let execute = chars.get_char(2);
        if !is_pattern_char(execute, 'x') {
            return Err(ParseError::InvalidCharacter { character: execute, position: 2 });
        }
        Ok(
            PartialPermissionBlock {
                read: state_of_char(read),
                write: state_of_char(write),
                execute: state_of_char(execute),
            },
        )
    }
}


proof fn lemma_run_end(s: Seq<char>, j: nat)
    requires
        j <= s.len(),
    ensures
        j <= digit_run_end(s, j) <= s.len(),
        forall|k: int| j <= k < digit_run_end(s, j) ==> is_digit(#[trigger] s[k]),
        digit_run_end(s, j) < s.len() ==> !is_digit(s[digit_run_end(s, j) as int]),
    decreases s.len() - j,
{
    if j < s.len() && is_digit(s[j as int]) {
        lemma_run_end(s, j + 1);
    }
}

proof fn lemma_digits_monotone(t: Seq<char>, k: int)
    requires
        0 <= k <= t.len(),
    ensures
        digits_value(t.take(k)) <= digits_value(t),
    decreases t.len(),
{
    if k < t.len() {
        lemma_digits_monotone(t.drop_last(), k);
        assert(t.drop_last().take(k) =~= t.take(k));
    } else {
        assert(t.take(k) =~= t);
    }
}

fn letter_of(k: usize) -> (r: char)
    ensures
        r == letter_at(k as int),
{
    if k == 0 {
        'r'
    } else if k == 1 {
        'w'
    } else {
        'x'
    }
}

fn starts_with_pattern(c: &Vec<char>) -> (r: bool)
    ensures
        r == has_pattern(c@),
{
    if c.len() < 9 {
        return false;
    }
    let mut i: usize = 0;
    while i < 9
        invariant
            i <= 9,
            c@.len() >= 9,
            forall|k: int| 0 <= k < i ==> pattern_char_ok(#[trigger] c@[k], letter_at(k % 3)),
        decreases 9 - i,
    {
        if !is_pattern_char(c[i], letter_of(i % 3)) {
            return false;
        }
        i = i + 1;
    }
    true
}

/// Index of the first `m` that a digit follows.
fn find_marker(c: &Vec<char>, m: char) -> (r: Option<usize>)
    ensures
        match r {
            Some(i) => marker_from(c@, m, 0) == Some(i as nat) && i + 1 < c@.len(),
            None => marker_from(c@, m, 0) is None,
        },
{
    let mut i: usize = 0;
    while i < c.len()
        invariant
            i <= c@.len(),
            marker_from(c@, m, 0) == marker_from(c@, m, i as nat),
        decreases c@.len() - i,
    {
        if i + 1 < c.len() && c[i] == m && is_digit_char(c[i + 1]) {
            return Some(i);
        }
        i = i + 1;
    }
    None
}

fn is_digit_char(c: char) -> (r: bool)
    ensures
        r == is_digit(c),
{
    '0' <= c && c <= '9'
}

/// The number whose digits start at `j`, if it fits in 32 bits.
fn read_id(c: &Vec<char>, j: usize) -> (r: Option<u32>)
    requires
        j <= c@.len(),
    ensures
        ({
            let v = digits_value(c@.subrange(j as int, digit_run_end(c@, j as nat) as int));
            match r {
                Some(x) => v <= u32::MAX && x == v,
                None => v > u32::MAX,
            }
        }),
{
    proof {
        lemma_run_end(c@, j as nat);
    }
    let ghost end = digit_run_end(c@, j as nat);
    let mut acc: u32 = 0;
    let mut k: usize = j;
    while k < c.len() && is_digit_char(c[k])
        invariant
            j <= k <= end,
            end == digit_run_end(c@, j as nat),
            end <= c@.len(),
            forall|x: int| j <= x < end ==> is_digit(#[trigger] c@[x]),
            end < c@.len() ==> !is_digit(c@[end as int]),
            acc == digits_value(c@.subrange(j as int, k as int)),
        decreases c@.len() - k,
    {
        let d = (c[k] as u32) - ('0' as u32);
        let next: u64 = (acc as u64) * 10 + (d as u64);
        assert(c@.subrange(j as int, k + 1).drop_last() =~= c@.subrange(j as int, k as int));
        if next > u32::MAX as u64 {
            proof {
                let t = c@.subrange(j as int, end as int);
                lemma_digits_monotone(t, k + 1 - j);
                assert(t.take(k + 1 - j) =~= c@.subrange(j as int, k + 1));
            }
            return None;
        }
        acc = next as u32;
        k = k + 1;
    }
    assert(k == end);
    Some(acc)
}

/// Reads one clause: an optional leading permission pattern, and the first
/// `u<digits>` and `g<digits>` anywhere in it.
pub fn parse_clause(part: &str) -> (r: Result<Filter, ParseError>)
    ensures
        match r {
            Ok(f) => clause_ok(part@) && f == clause_filter(part@),
            Err(e) => !clause_ok(part@) && e == ParseError::IdTooLarge,
        },
{
    let c = chars_of(part);
    let n = c.len();
    let permissions = if n >= 9 && starts_with_pattern(&c) {
        proof {
            assert(pattern_char_ok(part@[0], letter_at(0int % 3)));
            assert(pattern_char_ok(part@[1], letter_at(1int % 3)));
            assert(pattern_char_ok(part@[2], letter_at(2int % 3)));
            assert(pattern_char_ok(part@[3], letter_at(3int % 3)));
            assert(pattern_char_ok(part@[4], letter_at(4int % 3)));
            assert(pattern_char_ok(part@[5], letter_at(5int % 3)));
            assert(pattern_char_ok(part@[6], letter_at(6int % 3)));
            assert(pattern_char_ok(part@[7], letter_at(7int % 3)));
            assert(pattern_char_ok(part@[8], letter_at(8int % 3)));
        }
        let user = match PartialPermissionBlock::safe_from_chars(part.substring_char(0, 3)) {
            Ok(b) => b,
            Err(e) => return Err(e),
        };
        let group = match PartialPermissionBlock::safe_from_chars(part.substring_char(3, 6)) {
            Ok(b) => b,
            Err(e) => return Err(e),
        };
        let other = match PartialPermissionBlock::safe_from_chars(part.substring_char(6, 9)) {
            Ok(b) => b,
            Err(e) => return Err(e),
        };
        Some(PermissionBlock { user, group, other })
    } else {
        None
    };
    let user_owner = match find_marker(&c, 'u') {
        Some(i) => match read_id(&c, i + 1) {
            Some(v) => Some(v),
            None => return Err(ParseError::IdTooLarge),
        },
        None => None,
    };
    let group_owner = match find_marker(&c, 'g') {
        Some(i) => match read_id(&c, i + 1) {
            Some(v) => Some(v),
            None => return Err(ParseError::IdTooLarge),
        },
        None => None,
    };
    Ok(Filter { user_owner, group_owner, permissions })
}

/// Adds the clause of `part` to the set, unless it constrains nothing.
fn collect_clause(set: &mut FilterSet, part: &str) -> (r: Result<(), ParseError>)
    ensures
        match r {
            Ok(()) => clause_ok(part@) && final(set).filters@ == (if is_unconstrained(
                clause_filter(part@),
            ) {
                old(set).filters@
            } else {
                old(set).filters@.push(clause_filter(part@))
            }),
            Err(e) => !clause_ok(part@) && e == ParseError::IdTooLarge,
        },
{
    let filter = match parse_clause(part) {
        Ok(f) => f,
        Err(e) => return Err(e),
    };
    if filter.user_owner.is_some() || filter.group_owner.is_some() || filter.permissions.is_some() {
        set.add(filter);
    }
    Ok(())
}

impl FilterSet {
    /// Parses a policy: clauses separated by commas. Clauses that constrain
    /// nothing are left out; a policy with no other clause is refused.
    pub fn parse(s: &str) -> (r: Result<FilterSet, ParseError>)
        ensures
            match r {
                Ok(set) => parse_result(s@) == Ok::<Seq<Filter>, ParseError>(set.filters@),
                Err(e) => parse_result(s@) == Err::<Seq<Filter>, ParseError>(e),
            },
    {
        let c = chars_of(s);
        let n = c.len();
        let mut set = FilterSet::new();
        let mut start: usize = 0;
        let mut i: usize = 0;
        while i < n
            invariant
                c@ == s@,
                n == s@.len(),
                start <= i <= n,
                split_commas(s@.take(i as int)).last() == s@.subrange(start as int, i as int),
                set.filters@ == filters_of(split_commas(s@.take(i as int)).drop_last()),
                all_clauses_ok(split_commas(s@.take(i as int)).drop_last()),
            decreases n - i,
        {
            let ghost parts = split_commas(s@.take(i as int));
            proof {
                lemma_split_nonempty(s@.take(i as int));
                assert(s@.take(i + 1).drop_last() =~= s@.take(i as int));
            }
            if c[i] == ',' {
                let part = s.substring_char(start, i);
                let ghost before = set.filters@;
                match collect_clause(&mut set, part) {
                    Ok(()) => {},
                    Err(e) => {
                        proof {
                            let idx = parts.len() - 1;
                            lemma_split_prefix(s@, i + 1, n as int);
                            assert(s@.take(n as int) =~= s@);
                            assert(split_commas(s@)[idx] == parts[idx]);
                        }
                        return Err(e);
                    },
                }
                proof {
                    let next = split_commas(s@.take(i + 1));
                    assert(next.drop_last() =~= parts);
                    assert(parts.drop_last().push(parts.last()) =~= parts);
                    assert forall|k: int| 0 <= k < parts.len() implies clause_ok(#[trigger] parts[k]) by {
                        if k < parts.len() - 1 {
                            assert(parts[k] == parts.drop_last()[k]);
                        }
                    }
                    assert(s@.subrange((i + 1) as int, (i + 1) as int) =~= Seq::<char>::empty());
                }
                start = i + 1;
            } else {
                proof {
                    let next = split_commas(s@.take(i + 1));
                    assert(next.drop_last() =~= parts.drop_last());
                    assert(s@.subrange(start as int, i + 1) =~= s@.subrange(start as int, i as int).push(s@[i as int]));
                }
            }
            i = i + 1;
        }
        let ghost parts = split_commas(s@.take(n as int));
        proof {
            assert(s@.take(n as int) =~= s@);
            lemma_split_nonempty(s@);
        }
        let part = s.substring_char(start, n);
        match collect_clause(&mut set, part) {
            Ok(()) => {},
            Err(e) => {
                return Err(e);
            },
        }
        proof {
            assert(parts.drop_last().push(parts.last()) =~= parts);
            assert forall|k: int| 0 <= k < parts.len() implies clause_ok(#[trigger] parts[k]) by {
                if k < parts.len() - 1 {
                    assert(parts[k] == parts.drop_last()[k]);
                }
            }
        }
        if set.filters.len() == 0 {
            return Err(ParseError::NoValidFilter);
        }
        Ok(set)
    }
}

impl core::str::FromStr for FilterSet {
    type Err = ParseError;

    fn from_str(s: &str) -> Result<FilterSet, ParseError> {
        FilterSet::parse(s)
    }
}

proof fn lemma_no_comma_single_piece(s: Seq<char>)
    requires
        forall|i: int| 0 <= i < s.len() ==> #[trigger] s[i] != ',',
    ensures
        split_commas(s) == seq![s],
    decreases s.len(),
{
    if s.len() > 0 {
        let init = s.drop_last();
        assert forall|i: int| 0 <= i < init.len() implies #[trigger] init[i] != ',' by {
            assert(init[i] == s[i]);
        }
        lemma_no_comma_single_piece(init);
        assert(s[s.len() - 1] != ',');
        assert(init.push(s.last()) =~= s);
        assert(split_commas(s) =~= seq![s]);
    } else {
        assert(s =~= Seq::<char>::empty());
        assert(split_commas(s)[0] =~= s);
        assert(split_commas(s) =~= seq![s]);
    }
}

proof fn lemma_no_marker(s: Seq<char>, m: char, i: nat)
    requires
        forall|k: int| 0 <= k < s.len() ==> #[trigger] s[k] != m,
    ensures
        marker_from(s, m, i) is None,
    decreases s.len() - i,
{
    if i + 1 < s.len() {
        lemma_no_marker(s, m, i + 1);
    }
}

proof fn lemma_group_text(s: Seq<char>, start: int)
    requires
        0 <= start,
        start + 3 <= s.len(),
        pattern_char_ok(s[start], 'r'),
        pattern_char_ok(s[start + 1], 'w'),
        pattern_char_ok(s[start + 2], 'x'),
    ensures
        partial_text(group_of(s, start)) == s.subrange(start, start + 3),
{
    assert(partial_text(group_of(s, start)) =~= s.subrange(start, start + 3));
}

proof fn lemma_pattern_chars(s: Seq<char>)
    requires
        has_pattern(s),
    ensures
        forall|i: int|
            0 <= i < 9 ==> {
                let c = #[trigger] s[i];
                c == 'r' || c == 'w' || c == 'x' || c == '-' || c == '*'
            },
        block_text(pattern_of(s)) == s.take(9),
{
    assert forall|i: int| 0 <= i < 9 implies {
        let c = #[trigger] s[i];
        c == 'r' || c == 'w' || c == 'x' || c == '-' || c == '*'
    } by {
        assert(pattern_char_ok(s[i], letter_at(i % 3)));
    }
    assert(pattern_char_ok(s[0], letter_at(0int % 3)));
    assert(pattern_char_ok(s[1], letter_at(1int % 3)));
    assert(pattern_char_ok(s[2], letter_at(2int % 3)));
    lemma_group_text(s, 0);
    assert(pattern_char_ok(s[3], letter_at(3int % 3)));
    assert(pattern_char_ok(s[4], letter_at(4int % 3)));
    assert(pattern_char_ok(s[5], letter_at(5int % 3)));
    lemma_group_text(s, 3);
    assert(pattern_char_ok(s[6], letter_at(6int % 3)));
    assert(pattern_char_ok(s[7], letter_at(7int % 3)));
    assert(pattern_char_ok(s[8], letter_at(8int % 3)));
    lemma_group_text(s, 6);
    assert(block_text(pattern_of(s)) =~= s.take(9));
}

/// Parsing a policy that is a single permission pattern gives one clause,
/// whose pattern renders back to the text, and no owner or group.
pub proof fn lemma_pattern_round_trip(s: Seq<char>)
    requires
        s.len() == 9,
        has_pattern(s),
    ensures
        parse_result(s) is Ok,
        parse_result(s)->Ok_0.len() == 1,
        parse_result(s)->Ok_0[0].user_owner is None,
        parse_result(s)->Ok_0[0].group_owner is None,
        parse_result(s)->Ok_0[0].permissions is Some,
        block_text(parse_result(s)->Ok_0[0].permissions->Some_0) == s,
{
    lemma_pattern_chars(s);
    assert(s.take(9) =~= s);
    assert forall|i: int| 0 <= i < s.len() implies #[trigger] s[i] != ',' && s[i] != 'u' && s[i]
        != 'g' by {}
    lemma_no_comma_single_piece(s);
    lemma_no_marker(s, 'u', 0);
    lemma_no_marker(s, 'g', 0);
    let f = clause_filter(s);
    assert(f.user_owner is None && f.group_owner is None && f.permissions == Some(pattern_of(s)));
    let parts = split_commas(s);
    assert(parts.drop_last() =~= Seq::<Seq<char>>::empty());
    assert(parts.last() == s);
    assert(filters_of(parts.drop_last()) == Seq::<Filter>::empty());
    assert(!is_unconstrained(f));
    assert(filters_of(parts) =~= seq![f]);
    assert(clause_ok(parts[0]));
    assert(all_clauses_ok(parts));
}

proof fn lemma_separators_give_empty_pieces(s: Seq<char>)
    requires
        forall|i: int| 0 <= i < s.len() ==> #[trigger] s[i] == ',',
    ensures
        forall|k: int|
            0 <= k < split_commas(s).len() ==> #[trigger] split_commas(s)[k] == Seq::<char>::empty(),
    decreases s.len(),
{
    if s.len() == 0 {
        assert(split_commas(s)[0] =~= Seq::<char>::empty());
    } else {
        let init = s.drop_last();
        assert forall|i: int| 0 <= i < init.len() implies #[trigger] init[i] == ',' by {
            assert(init[i] == s[i]);
        }
        lemma_separators_give_empty_pieces(init);
        assert(s[s.len() - 1] == ',');
        let parts = split_commas(s);
        assert(parts == split_commas(init).push(Seq::<char>::empty()));
        assert forall|k: int| 0 <= k < parts.len() implies #[trigger] parts[k] == Seq::<char>::empty() by {
            if k < parts.len() - 1 {
                assert(parts[k] == split_commas(init)[k]);
            }
        }
    }
}

proof fn lemma_empty_pieces_give_nothing(parts: Seq<Seq<char>>)
    requires
        forall|k: int| 0 <= k < parts.len() ==> #[trigger] parts[k] == Seq::<char>::empty(),
    ensures
        filters_of(parts) == Seq::<Filter>::empty(),
        all_clauses_ok(parts),
    decreases parts.len(),
{
    assert(marker_from(Seq::<char>::empty(), 'u', 0) is None);
    assert(marker_from(Seq::<char>::empty(), 'g', 0) is None);
    if parts.len() > 0 {
        let init = parts.drop_last();
        assert forall|k: int| 0 <= k < init.len() implies #[trigger] init[k] == Seq::<char>::empty() by {
            assert(init[k] == parts[k]);
        }
        lemma_empty_pieces_give_nothing(init);
        assert(parts.last() == Seq::<char>::empty());
        assert(is_unconstrained(clause_filter(parts.last())));
    }
}

/// A policy made of nothing but commas, the empty policy among them, is
/// refused for want of a clause.
pub proof fn lemma_separators_only_refused(s: Seq<char>)
    requires
        forall|i: int| 0 <= i < s.len() ==> #[trigger] s[i] == ',',
    ensures
        parse_result(s) == Err::<Seq<Filter>, ParseError>(ParseError::NoValidFilter),
{
    lemma_separators_give_empty_pieces(s);
    lemma_empty_pieces_give_nothing(split_commas(s));
}

} // verus!
