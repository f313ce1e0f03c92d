# dao-membership

Registers of who belongs to which organisation. Each organisation has an ordered list of at most
`MAX_MEMBERS` members, and may have a prime member, who is one of them.

Members are added, removed, exchanged or replaced altogether, a member may change its own key, and
the prime member is set or cleared. Every call but the change of a key is held against the policy
of the organisation. Whoever listens is told what became of a membership, in order, and of nothing
else.

- `src/` is the library. Verus proves what the contracts in it state.
- `tests/` runs it.
- `app/` keeps the register in the storage of a FRAME chain.

The bounded vectors that hold members, and the test of who signed a call, come from
`frame_support` and `frame_system`. `src/bounded.rs` and `src/origin.rs` say what is believed of
them.
