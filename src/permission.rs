use vstd::prelude::*;

verus! {

/// State of a single permission bit. `WILDCARD` only ever comes from a
/// user-written pattern; bits decoded from a mode are `SET` or `UNSET`.
#[derive(Debug, Clone, Copy, PartialEq, Eq, Structural)]
pub enum PermissionState {
    SET,
    UNSET,
    WILDCARD,
}

/// Read, write and execute bits of one class of users (one octal digit).
#[derive(Debug, Clone, Copy, PartialEq, Eq, Structural)]
pub struct PartialPermissionBlock {
    pub read: PermissionState,
    pub write: PermissionState,
    pub execute: PermissionState,
}

/// The nine permission bits of an entry, or a pattern over them.
#[derive(Debug, Clone, Copy, PartialEq, Eq, Structural)]
pub struct PermissionBlock {
    pub user: PartialPermissionBlock,
    pub group: PartialPermissionBlock,
    pub other: PartialPermissionBlock,
}

pub open spec fn bit_state(bit: nat) -> PermissionState {
    if bit == 1 {
        PermissionState::SET
    } else {
        PermissionState::UNSET
    }
}

/// The block of one octal digit: read is 4, write is 2, execute is 1.
pub open spec fn digit_block(digit: nat) -> PartialPermissionBlock {
    PartialPermissionBlock {
        read: bit_state((digit / 4) % 2),
        write: bit_state((digit / 2) % 2),
        execute: bit_state(digit % 2),
    }
}

/// The block of a mode, read as octal digits user, group, other; higher
/// bits are ignored.
pub open spec fn mode_block(mode: nat) -> PermissionBlock {
    PermissionBlock {
        user: digit_block((mode / 64) % 8),
        group: digit_block((mode / 8) % 8),
        other: digit_block(mode % 8),
    }
}

pub open spec fn state_char(state: PermissionState, letter: char) -> char {
    match state {
        PermissionState::SET => letter,
        PermissionState::UNSET => '-',
        PermissionState::WILDCARD => '*',
    }
}

pub open spec fn partial_text(b: PartialPermissionBlock) -> Seq<char> {
    seq![state_char(b.read, 'r'), state_char(b.write, 'w'), state_char(b.execute, 'x')]
}

/// Symbolic form of a block: nine characters, user first.
pub open spec fn block_text(b: PermissionBlock) -> Seq<char> {
    partial_text(b.user) + partial_text(b.group) + partial_text(b.other)
}

pub open spec fn state_compatible(a: PermissionState, b: PermissionState) -> bool {
    a == PermissionState::WILDCARD || b == PermissionState::WILDCARD || a == b
}

pub open spec fn partial_compatible(a: PartialPermissionBlock, b: PartialPermissionBlock) -> bool {
    &&& state_compatible(a.read, b.read)
    &&& state_compatible(a.write, b.write)
    &&& state_compatible(a.execute, b.execute)
}

/// Every position agrees, or one of the two sides is a wildcard there.
pub open spec fn block_compatible(a: PermissionBlock, b: PermissionBlock) -> bool {
    &&& partial_compatible(a.user, b.user)
    &&& partial_compatible(a.group, b.group)
    &&& partial_compatible(a.other, b.other)
}

pub open spec fn partial_has_wildcard(b: PartialPermissionBlock) -> bool {
    b.read == PermissionState::WILDCARD || b.write == PermissionState::WILDCARD
        || b.execute == PermissionState::WILDCARD
}

pub open spec fn block_has_wildcard(b: PermissionBlock) -> bool {
    partial_has_wildcard(b.user) || partial_has_wildcard(b.group) || partial_has_wildcard(b.other)
}

fn state_from_bit(bit: u32) -> (r: PermissionState)
    requires
        bit <= 1,
    ensures
        r == bit_state(bit as nat),
{
    if bit == 1 {
        PermissionState::SET
    } else {
        PermissionState::UNSET
    }
}

fn render_state(state: PermissionState, letter: &str, out: &mut String)
    requires
        letter@.len() == 1,
    ensures
        final(out)@ == old(out)@.push(state_char(state, letter@[0])),
{
    proof {
        reveal_strlit("-");
        reveal_strlit("*");
    }
    match state {
        PermissionState::SET => out.append(letter),
        PermissionState::UNSET => out.append("-"),
        PermissionState::WILDCARD => out.append("*"),
    }
    assert(final(out)@ =~= old(out)@.push(state_char(state, letter@[0])));
}

impl PartialPermissionBlock {
    /// Decodes one octal digit of a mode.
    pub fn from_st_mode_digit(digit: u32) -> (r: Self)
        requires
            digit <= 7,
        ensures
            r == digit_block(digit as nat),
            !partial_has_wildcard(r),
    {
        let execute = state_from_bit(digit % 2);
        let rest = digit / 2;
        let write = state_from_bit(rest % 2);
        let rest = rest / 2;
        let read = state_from_bit(rest % 2);
        assert((digit / 2) / 2 == digit / 4);
        PartialPermissionBlock { read, write, execute }
    }

    /// Whether the two blocks agree on every position that neither leaves open.
    pub fn is_compatible(&self, other: &Self) -> (r: bool)
        ensures
            r == partial_compatible(*self, *other),
    {
        let pairs = [(self.read, other.read), (self.write, other.write), (self.execute, other.execute)];
        let mut i: usize = 0;
        while i < 3
            invariant
                i <= 3,
                pairs@ == seq![(self.read, other.read), (self.write, other.write), (self.execute, other.execute)],
                forall|k: int| 0 <= k < i ==> state_compatible(#[trigger] pairs@[k].0, pairs@[k].1),
            decreases 3 - i,
        {
            let (mine, theirs) = pairs[i];
            if mine != PermissionState::WILDCARD && theirs != PermissionState::WILDCARD
                && mine != theirs {
                assert(!state_compatible(pairs@[i as int].0, pairs@[i as int].1));
                return false;
            }
            i = i + 1;
        }
        assert(state_compatible(pairs@[0].0, pairs@[0].1));
        assert(state_compatible(pairs@[1].0, pairs@[1].1));
        assert(state_compatible(pairs@[2].0, pairs@[2].1));
        true
    }

    /// Appends the three symbolic characters of this block.
    pub fn render_into(&self, out: &mut String)
        ensures
            final(out)@ == old(out)@ + partial_text(*self),
    {
        proof {
            reveal_strlit("r");
            reveal_strlit("w");
            reveal_strlit("x");
        }
        render_state(self.read, "r", out);
        render_state(self.write, "w", out);
        render_state(self.execute, "x", out);
        assert(final(out)@ =~= old(out)@ + partial_text(*self));
    }

    /// The three symbolic characters of this block, such as `r-x`.
    pub fn render(&self) -> (r: String)
        ensures
            r@ == partial_text(*self),
    {
        let mut out = String::new();
        self.render_into(&mut out);
        assert(out@ =~= partial_text(*self));
        out
    }
}

impl PermissionBlock {
    /// Decodes the permission bits of a mode: the low three octal digits
    /// are user, group and other.
    pub fn from_mode(mode: u32) -> (r: Self)
        ensures
            r == mode_block(mode as nat),
            !block_has_wildcard(r),
    {
        let other = PartialPermissionBlock::from_st_mode_digit(mode % 8);
        let rest = mode / 8;
        let group = PartialPermissionBlock::from_st_mode_digit(rest % 8);
        let rest = rest / 8;
        let user = PartialPermissionBlock::from_st_mode_digit(rest % 8);
        assert((mode / 8) / 8 == mode / 64);
        PermissionBlock { user, group, other }
    }

    /// Whether the two blocks agree on all nine positions, wildcards aside.
    pub fn is_compatible(&self, other: &Self) -> (r: bool)
        ensures
            r == block_compatible(*self, *other),
    {
        self.user.is_compatible(&other.user) && self.group.is_compatible(&other.group)
            && self.other.is_compatible(&other.other)
    }

    /// Appends the nine symbolic characters of this block.
    pub fn render_into(&self, out: &mut String)
        ensures
            final(out)@ == old(out)@ + block_text(*self),
    {
        self.user.render_into(out);
        self.group.render_into(out);
        self.other.render_into(out);
        assert(final(out)@ =~= old(out)@ + block_text(*self));
    }

    /// The nine symbolic characters of this block, such as `rwxr-x---`.
    pub fn render(&self) -> (r: String)
        ensures
            r@ == block_text(*self),
    {
        let mut out = String::new();
        self.render_into(&mut out);
        assert(out@ =~= block_text(*self));
        out
    }
}

/// Decoding any mode of nine bits and rendering the block gives nine
/// characters, each its position's letter or `-`, never `*`.
pub proof fn lemma_decoded_mode_renders_plain(mode: nat)
    requires
        mode <= 511,
    ensures
        block_text(mode_block(mode)).len() == 9,
        forall|i: int|
            0 <= i < 9 ==> {
                let c = #[trigger] block_text(mode_block(mode))[i];
                c == 'r' || c == 'w' || c == 'x' || c == '-'
            },
{
    let t = block_text(mode_block(mode));
    assert forall|i: int| 0 <= i < 9 implies {
        let c = #[trigger] t[i];
        c == 'r' || c == 'w' || c == 'x' || c == '-'
    } by {
        if i < 3 {
            assert(t[i] == partial_text(mode_block(mode).user)[i]);
        } else if i < 6 {
            assert(t[i] == partial_text(mode_block(mode).group)[i - 3]);
        } else {
            assert(t[i] == partial_text(mode_block(mode).other)[i - 6]);
        }
    }
}

} // verus!
