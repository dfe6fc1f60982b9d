//! Permission bits, overwrite entries, and the privacy modes that the
//! overwrite calculator works with.

use vstd::prelude::*;

verus! {

/// Permission bit allowing a member or role to connect to a voice channel.
pub const CONNECT: u64 = 0x100000;

/// Permission bit allowing a member or role to view a channel.
pub const VIEW_CHANNEL: u64 = 0x400;

/// Permission bit granting every permission.
pub const ADMINISTRATOR: u64 = 0x8;

/// Permission bit allowing channel management.
pub const MANAGE_CHANNELS: u64 = 0x10;

/// Permission bit allowing guild management.
pub const MANAGE_GUILD: u64 = 0x20;

/// Permission bit allowing messages to be sent.
pub const SEND_MESSAGES: u64 = 0x800;

/// Permission bit allowing embedded links in messages.
pub const EMBED_LINKS: u64 = 0x4000;

/// Permission bit allowing members to be moved between voice channels.
pub const MOVE_MEMBERS: u64 = 0x1000000;

/// Permission bit allowing role and overwrite management.
pub const MANAGE_ROLES: u64 = 0x10000000;

/// Whether a permission set contains every bit of `bit`.
pub open spec fn has_bits(perms: u64, bit: u64) -> bool {
    perms & bit == bit
}

/// The default privacy of new temporary voice channels: a closed
/// three-value enumeration, validated at the input edge.
#[derive(Clone, Copy, PartialEq, Eq, Structural, Debug)]
pub enum Privacy {
    /// Everyone may view and connect.
    Unlocked,
    /// Everyone may view, but not connect.
    Locked,
    /// Everyone may not view.
    Invisible,
}

/// Whether an overwrite entry targets a role or a single member.
#[derive(Clone, Copy, PartialEq, Eq, Structural, Debug)]
pub enum OverwriteKind {
    Role,
    Member,
}

/// One access-control entry of a channel: bit sets allowed to and denied
/// from the role or member `id`.
#[derive(Clone, Copy, PartialEq, Eq, Structural, Debug)]
pub struct Overwrite {
    pub id: u64,
    pub kind: OverwriteKind,
    pub allow: u64,
    pub deny: u64,
}

impl Overwrite {
    /// An entry that grants and denies nothing carries no information.
    pub open spec fn is_empty(self) -> bool {
        self.allow == 0 && self.deny == 0
    }

    /// Whether this entry is the one for `id` with kind `kind`.
    pub open spec fn targets(self, id: u64, kind: OverwriteKind) -> bool {
        self.id == id && self.kind == kind
    }
}

/// Bits denied to the everyone role under a privacy mode.
pub open spec fn privacy_deny_bit(privacy: Privacy) -> u64 {
    match privacy {
        Privacy::Unlocked => 0,
        Privacy::Locked => CONNECT,
        Privacy::Invisible => VIEW_CHANNEL,
    }
}

/// Inserting a bit set leaves every bit of it present.
pub proof fn lemma_or_sets(perms: u64, bit: u64)
    ensures
        has_bits(perms | bit, bit),
{
    assert((perms | bit) & bit == bit) by (bit_vector);
}

/// Clearing a bit set removes every bit of it.
pub proof fn lemma_andnot_clears(perms: u64, bit: u64)
    ensures
        (perms & !bit) & bit == 0,
{
    assert((perms & !bit) & bit == 0) by (bit_vector);
}

/// Whether a permission set contains every bit of `bit`; the executable
/// twin of `has_bits`.
pub fn contains_bits(perms: u64, bit: u64) -> (r: bool)
    ensures
        r == has_bits(perms, bit),
{
    perms & bit == bit
}

/// Whether an invoker may use the guild commands: they must hold both the
/// administrator and the manage-guild bits.
pub fn may_configure_guild(perms: u64) -> (r: bool)
    ensures
        r == has_bits(perms, ADMINISTRATOR | MANAGE_GUILD),
{
    contains_bits(perms, ADMINISTRATOR | MANAGE_GUILD)
}

/// Whether the bot itself holds every permission the panel actions need in
/// the channel the panel sits in.
pub fn panel_permissions_ok(perms: u64) -> (r: bool)
    ensures
        r == has_bits(
            perms,
            CONNECT | EMBED_LINKS | MANAGE_CHANNELS | MANAGE_ROLES | MOVE_MEMBERS | SEND_MESSAGES
                | VIEW_CHANNEL,
        ),
{
    contains_bits(
        perms,
        CONNECT | EMBED_LINKS | MANAGE_CHANNELS | MANAGE_ROLES | MOVE_MEMBERS | SEND_MESSAGES
            | VIEW_CHANNEL,
    )
}

/// Whether an entry survives a recomputation that rewrites the slots for
/// the everyone role, the owner, the bot member and the bot role: it must
/// target none of them and carry information.
pub open spec fn keeps(
    o: Overwrite,
    everyone_role_id: u64,
    owner_id: Option<u64>,
    bot_user_id: Option<u64>,
    bot_role_id: Option<u64>,
) -> bool {
    &&& !o.is_empty()
    &&& !o.targets(everyone_role_id, OverwriteKind::Role)
    &&& (owner_id is Some ==> !o.targets(owner_id->0, OverwriteKind::Member))
    &&& (bot_user_id is Some ==> !o.targets(bot_user_id->0, OverwriteKind::Member))
    &&& (bot_role_id is Some ==> !o.targets(bot_role_id->0, OverwriteKind::Role))
}

/// The entries that survive such a recomputation, in their original order.
pub open spec fn kept_entries(
    s: Seq<Overwrite>,
    everyone_role_id: u64,
    owner_id: Option<u64>,
    bot_user_id: Option<u64>,
    bot_role_id: Option<u64>,
) -> Seq<Overwrite>
    decreases s.len(),
{
    if s.len() == 0 {
        Seq::empty()
    } else {
        let rest = kept_entries(
            s.drop_last(),
            everyone_role_id,
            owner_id,
            bot_user_id,
            bot_role_id,
        );
        if keeps(s.last(), everyone_role_id, owner_id, bot_user_id, bot_role_id) {
            rest.push(s.last())
        } else {
            rest
        }
    }
}

/// The last entry of `s` that targets `id` with kind `kind`; this is the
/// value a single rewriting pass ends up holding.
pub open spec fn last_target(s: Seq<Overwrite>, id: u64, kind: OverwriteKind) -> Option<Overwrite>
    decreases s.len(),
{
    if s.len() == 0 {
        None
    } else if s.last().targets(id, kind) {
        Some(s.last())
    } else {
        last_target(s.drop_last(), id, kind)
    }
}

/// The first entry of `s` that targets `id` with kind `kind`; this is the
/// value a lookup finds.
pub open spec fn first_target(s: Seq<Overwrite>, id: u64, kind: OverwriteKind) -> Option<Overwrite>
    decreases s.len(),
{
    if s.len() == 0 {
        None
    } else if s[0].targets(id, kind) {
        Some(s[0])
    } else {
        first_target(s.drop_first(), id, kind)
    }
}

/// The allow bits of an entry that may be absent.
pub open spec fn allow_of(o: Option<Overwrite>) -> u64 {
    match o {
        Some(o) => o.allow,
        None => 0,
    }
}

/// The deny bits of an entry that may be absent.
pub open spec fn deny_of(o: Option<Overwrite>) -> u64 {
    match o {
        Some(o) => o.deny,
        None => 0,
    }
}

proof fn lemma_first_target_skip(s: Seq<Overwrite>, id: u64, kind: OverwriteKind, i: int)
    requires
        0 <= i <= s.len(),
        forall|j: int| 0 <= j < i ==> !(#[trigger] s[j]).targets(id, kind),
    ensures
        first_target(s, id, kind) == first_target(s.skip(i), id, kind),
    decreases i,
{
    if i == 0 {
        assert(s.skip(0) =~= s);
    } else {
        assert(!s[0].targets(id, kind));
        assert forall|j: int| 0 <= j < i - 1 implies !(#[trigger] s.drop_first()[j]).targets(
            id,
            kind,
        ) by {
            assert(s.drop_first()[j] == s[j + 1]);
        }
        lemma_first_target_skip(s.drop_first(), id, kind, i - 1);
        assert(s.drop_first().skip(i - 1) =~= s.skip(i));
    }
}

/// A lookup that skips over entries which target none of the recomputed
/// slots finds the appended slot entries themselves.
proof fn lemma_first_target_append(
    a: Seq<Overwrite>,
    b: Seq<Overwrite>,
    id: u64,
    kind: OverwriteKind,
)
    requires
        forall|j: int| 0 <= j < a.len() ==> !(#[trigger] a[j]).targets(id, kind),
    ensures
        first_target(a + b, id, kind) == first_target(b, id, kind),
{
    assert forall|j: int| 0 <= j < a.len() implies !(#[trigger] (a + b)[j]).targets(
        id,
        kind,
    ) by {
        assert((a + b)[j] == a[j]);
    }
    lemma_first_target_skip(a + b, id, kind, a.len() as int);
    assert((a + b).skip(a.len() as int) =~= b);
}

/// Every kept entry satisfies `keeps`: none targets a recomputed slot.
proof fn lemma_kept_entries_keep(
    s: Seq<Overwrite>,
    everyone_role_id: u64,
    owner_id: Option<u64>,
    bot_user_id: Option<u64>,
    bot_role_id: Option<u64>,
)
    ensures
        forall|j: int|
            0 <= j < kept_entries(s, everyone_role_id, owner_id, bot_user_id, bot_role_id).len()
                ==> keeps(
                #[trigger] kept_entries(
                    s,
                    everyone_role_id,
                    owner_id,
                    bot_user_id,
                    bot_role_id,
                )[j],
                everyone_role_id,
                owner_id,
                bot_user_id,
                bot_role_id,
            ),
    decreases s.len(),
{
    if s.len() > 0 {
        lemma_kept_entries_keep(
            s.drop_last(),
            everyone_role_id,
            owner_id,
            bot_user_id,
            bot_role_id,
        );
        let rest = kept_entries(
            s.drop_last(),
            everyone_role_id,
            owner_id,
            bot_user_id,
            bot_role_id,
        );
        let all = kept_entries(s, everyone_role_id, owner_id, bot_user_id, bot_role_id);
        assert forall|j: int| 0 <= j < all.len() implies keeps(
            #[trigger] all[j],
            everyone_role_id,
            owner_id,
            bot_user_id,
            bot_role_id,
        ) by {
            if keeps(s.last(), everyone_role_id, owner_id, bot_user_id, bot_role_id) {
                assert(all == rest.push(s.last()));
                if j < rest.len() {
                    assert(all[j] == rest[j]);
                }
            } else {
                assert(all == rest);
            }
        }
    }
}

/// One rewriting pass over an overwrite list: drops the entries for the
/// recomputed slots (everyone role, owner member, bot member, bot role)
/// and the entries that carry no information, and hands back the kept
/// entries together with the last value each slot held.
fn extract_slots(
    overwrites: &Vec<Overwrite>,
    everyone_role_id: u64,
    owner_id: Option<u64>,
    bot_user_id: Option<u64>,
    bot_role_id: Option<u64>,
) -> (r: (Vec<Overwrite>, Option<Overwrite>, Option<Overwrite>, Option<Overwrite>))
    ensures
        r.0@ == kept_entries(overwrites@, everyone_role_id, owner_id, bot_user_id, bot_role_id),
        r.1 == last_target(overwrites@, everyone_role_id, OverwriteKind::Role),
        owner_id is Some ==> r.2 == last_target(
            overwrites@,
            owner_id->0,
            OverwriteKind::Member,
        ),
        owner_id is None ==> r.2 is None,
        bot_user_id is Some ==> r.3 == last_target(
            overwrites@,
            bot_user_id->0,
            OverwriteKind::Member,
        ),
        bot_user_id is None ==> r.3 is None,
{
    let mut kept: Vec<Overwrite> = Vec::new();
    let mut everyone_slot: Option<Overwrite> = None;
    let mut owner_slot: Option<Overwrite> = None;
    let mut bot_slot: Option<Overwrite> = None;
    let mut i: usize = 0;
    while i < overwrites.len()
        invariant
            i <= overwrites@.len(),
            kept@ == kept_entries(
                overwrites@.take(i as int),
                everyone_role_id,
                owner_id,
                bot_user_id,
                bot_role_id,
            ),
            everyone_slot == last_target(
                overwrites@.take(i as int),
                everyone_role_id,
                OverwriteKind::Role,
            ),
            owner_id is Some ==> owner_slot == last_target(
                overwrites@.take(i as int),
                owner_id->0,
                OverwriteKind::Member,
            ),
            owner_id is None ==> owner_slot is None,
            bot_user_id is Some ==> bot_slot == last_target(
                overwrites@.take(i as int),
                bot_user_id->0,
                OverwriteKind::Member,
            ),
            bot_user_id is None ==> bot_slot is None,
        decreases overwrites@.len() - i,
    {
        let o = overwrites[i];
        proof {
            assert(overwrites@.take(i as int + 1).drop_last() =~= overwrites@.take(i as int));
            assert(overwrites@.take(i as int + 1).last() == o);
        }
        let mut special = false;
        if o.id == everyone_role_id && o.kind == OverwriteKind::Role {
            everyone_slot = Some(o);
            special = true;
        }
        if let Some(u) = owner_id {
            if o.id == u && o.kind == OverwriteKind::Member {
                owner_slot = Some(o);
                special = true;
            }
        }
        if let Some(u) = bot_user_id {
            if o.id == u && o.kind == OverwriteKind::Member {
                bot_slot = Some(o);
                special = true;
            }
        }
        if let Some(r) = bot_role_id {
            if o.id == r && o.kind == OverwriteKind::Role {
                special = true;
            }
        }
        if !special && (o.allow != 0 || o.deny != 0) {
            kept.push(o);
        }
        i += 1;
    }
    proof {
        assert(overwrites@.take(overwrites@.len() as int) =~= overwrites@);
    }
    (kept, everyone_slot, owner_slot, bot_slot)
}

/// The overwrite list of a freshly provisioned voice channel, computed
/// from the category's template: entries for the owner, the everyone role
/// and the bot's managed role are recomputed (empty leftovers pruned), the
/// bot's role is granted connect and view, the everyone role is denied the
/// bit the privacy mode calls for on top of the template's denies, and the
/// owner is granted that same bit so the room never locks its owner out.
pub open spec fn spec_initial_overwrites(
    s: Seq<Overwrite>,
    privacy: Privacy,
    owner_user_id: u64,
    bot_role_id: u64,
    everyone_role_id: u64,
) -> Seq<Overwrite> {
    let ev = last_target(s, everyone_role_id, OverwriteKind::Role);
    let ow = last_target(s, owner_user_id, OverwriteKind::Member);
    kept_entries(s, everyone_role_id, Some(owner_user_id), None, Some(bot_role_id)) + seq![
        Overwrite {
            id: bot_role_id,
            kind: OverwriteKind::Role,
            allow: CONNECT | VIEW_CHANNEL,
            deny: 0,
        },
        Overwrite {
            id: everyone_role_id,
            kind: OverwriteKind::Role,
            allow: allow_of(ev),
            deny: deny_of(ev) | privacy_deny_bit(privacy),
        },
        Overwrite {
            id: owner_user_id,
            kind: OverwriteKind::Member,
            allow: allow_of(ow) | privacy_deny_bit(privacy),
            deny: deny_of(ow),
        },
    ]
}

/// Computes the initial overwrites of a provisioned voice channel; see
/// [`spec_initial_overwrites`].
pub fn initial_overwrites(
    template: &Vec<Overwrite>,
    privacy: Privacy,
    owner_user_id: u64,
    bot_role_id: u64,
    everyone_role_id: u64,
) -> (r: Vec<Overwrite>)
    ensures
        r@ == spec_initial_overwrites(
            template@,
            privacy,
            owner_user_id,
            bot_role_id,
            everyone_role_id,
        ),
{
    let (mut kept, everyone_slot, owner_slot, _) = extract_slots(
        template,
        everyone_role_id,
        Some(owner_user_id),
        None,
        Some(bot_role_id),
    );
    let ghost kept0 = kept@;
    let bit = privacy_deny_bit_of(privacy);
    let (everyone_allow, everyone_deny) = match everyone_slot {
        Some(o) => (o.allow, o.deny),
        None => (0u64, 0u64),
    };
    let (owner_allow, owner_deny) = match owner_slot {
        Some(o) => (o.allow, o.deny),
        None => (0u64, 0u64),
    };
    kept.push(Overwrite {
        id: bot_role_id,
        kind: OverwriteKind::Role,
        allow: CONNECT | VIEW_CHANNEL,
        deny: 0,
    });
    kept.push(Overwrite {
        id: everyone_role_id,
        kind: OverwriteKind::Role,
        allow: everyone_allow,
        deny: everyone_deny | bit,
    });
    kept.push(Overwrite {
        id: owner_user_id,
        kind: OverwriteKind::Member,
        allow: owner_allow | bit,
        deny: owner_deny,
    });
    proof {
        assert(kept@ =~= spec_initial_overwrites(
            template@,
            privacy,
            owner_user_id,
            bot_role_id,
            everyone_role_id,
        ));
    }
    kept
}

/// The deny bit of a privacy mode, executably.
pub fn privacy_deny_bit_of(privacy: Privacy) -> (r: u64)
    ensures
        r == privacy_deny_bit(privacy),
{
    match privacy {
        Privacy::Unlocked => 0,
        Privacy::Locked => CONNECT,
        Privacy::Invisible => VIEW_CHANNEL,
    }
}

/// The overwrite list after switching a voice channel's privacy mode: the
/// everyone and owner slots are recomputed, the deny bit of the previous
/// mode is removed before the new mode's bit is applied (the modes are
/// mutually exclusive, not additive), the owner mirrors whatever everyone
/// is denied, and under the unlocked mode the owner slot is dropped.
pub open spec fn spec_apply_privacy(
    s: Seq<Overwrite>,
    privacy: Privacy,
    owner_id: Option<u64>,
    everyone_role_id: u64,
) -> Seq<Overwrite> {
    let ev = last_target(s, everyone_role_id, OverwriteKind::Role);
    let ow = if owner_id is Some {
        last_target(s, owner_id->0, OverwriteKind::Member)
    } else {
        None
    };
    let everyone_deny = match privacy {
        Privacy::Unlocked => deny_of(ev) & !(CONNECT | VIEW_CHANNEL),
        Privacy::Locked => (deny_of(ev) & !VIEW_CHANNEL) | CONNECT,
        Privacy::Invisible => (deny_of(ev) & !CONNECT) | VIEW_CHANNEL,
    };
    let base = kept_entries(s, everyone_role_id, owner_id, None, None).push(
        Overwrite {
            id: everyone_role_id,
            kind: OverwriteKind::Role,
            allow: allow_of(ev),
            deny: everyone_deny,
        },
    );
    if privacy != Privacy::Unlocked && owner_id is Some {
        base.push(Overwrite {
            id: owner_id->0,
            kind: OverwriteKind::Member,
            allow: allow_of(ow) | privacy_deny_bit(privacy),
            deny: deny_of(ow),
        })
    } else {
        base
    }
}

/// Computes the overwrites after a privacy switch; see
/// [`spec_apply_privacy`].
pub fn apply_privacy(
    overwrites: &Vec<Overwrite>,
    privacy: Privacy,
    owner_id: Option<u64>,
    everyone_role_id: u64,
) -> (r: Vec<Overwrite>)
    ensures
        r@ == spec_apply_privacy(overwrites@, privacy, owner_id, everyone_role_id),
{
    let (mut kept, everyone_slot, owner_slot, _) = extract_slots(
        overwrites,
        everyone_role_id,
        owner_id,
        None,
        None,
    );
    let (everyone_allow, everyone_deny) = match everyone_slot {
        Some(o) => (o.allow, o.deny),
        None => (0u64, 0u64),
    };
    let (owner_allow, owner_deny) = match owner_slot {
        Some(o) => (o.allow, o.deny),
        None => (0u64, 0u64),
    };
    let new_deny = match privacy {
        Privacy::Unlocked => everyone_deny & !(CONNECT | VIEW_CHANNEL),
        Privacy::Locked => (everyone_deny & !VIEW_CHANNEL) | CONNECT,
        Privacy::Invisible => (everyone_deny & !CONNECT) | VIEW_CHANNEL,
    };
    kept.push(Overwrite {
        id: everyone_role_id,
        kind: OverwriteKind::Role,
        allow: everyone_allow,
        deny: new_deny,
    });
    if privacy != Privacy::Unlocked {
        if let Some(u) = owner_id {
            kept.push(Overwrite {
                id: u,
                kind: OverwriteKind::Member,
                allow: owner_allow | privacy_deny_bit_of(privacy),
                deny: owner_deny,
            });
        }
    }
    proof {
        assert(kept@ =~= spec_apply_privacy(overwrites@, privacy, owner_id, everyone_role_id));
    }
    kept
}

/// The privacy a channel's overwrites currently express, read from the
/// everyone role's deny bits: a denied view means invisible, else a denied
/// connect means locked, else unlocked.
pub open spec fn spec_current_privacy(s: Seq<Overwrite>, everyone_role_id: u64) -> Privacy {
    match first_target(s, everyone_role_id, OverwriteKind::Role) {
        None => Privacy::Unlocked,
        Some(o) => if has_bits(o.deny, VIEW_CHANNEL) {
            Privacy::Invisible
        } else if has_bits(o.deny, CONNECT) {
            Privacy::Locked
        } else {
            Privacy::Unlocked
        },
    }
}

/// Finds the first entry targeting `id` with kind `kind`.
pub fn find_target(overwrites: &Vec<Overwrite>, id: u64, kind: OverwriteKind) -> (r: Option<
    Overwrite,
>)
    ensures
        r == first_target(overwrites@, id, kind),
{
    let mut i: usize = 0;
    while i < overwrites.len()
        invariant
            i <= overwrites@.len(),
            forall|j: int| 0 <= j < i ==> !(#[trigger] overwrites@[j]).targets(id, kind),
        decreases overwrites@.len() - i,
    {
        let o = overwrites[i];
        if o.id == id && o.kind == kind {
            proof {
                lemma_first_target_skip(overwrites@, id, kind, i as int);
                assert(overwrites@.skip(i as int)[0] == o);
            }
            return Some(o);
        }
        i += 1;
    }
    proof {
        lemma_first_target_skip(overwrites@, id, kind, overwrites@.len() as int);
        assert(overwrites@.skip(overwrites@.len() as int) =~= Seq::<Overwrite>::empty());
    }
    None
}

/// Reads the privacy a channel's overwrites currently express; see
/// [`spec_current_privacy`].
pub fn current_privacy(overwrites: &Vec<Overwrite>, everyone_role_id: u64) -> (r: Privacy)
    ensures
        r == spec_current_privacy(overwrites@, everyone_role_id),
{
    match find_target(overwrites, everyone_role_id, OverwriteKind::Role) {
        None => Privacy::Unlocked,
        Some(o) => {
            if contains_bits(o.deny, VIEW_CHANNEL) {
                Privacy::Invisible
            } else if contains_bits(o.deny, CONNECT) {
                Privacy::Locked
            } else {
                Privacy::Unlocked
            }
        },
    }
}

/// Whether the channel is locked: the everyone role is denied connect.
pub open spec fn spec_is_locked(s: Seq<Overwrite>, everyone_role_id: u64) -> bool {
    has_bits(deny_of(first_target(s, everyone_role_id, OverwriteKind::Role)), CONNECT)
}

/// Reads whether the channel is locked; see [`spec_is_locked`].
pub fn is_locked(overwrites: &Vec<Overwrite>, everyone_role_id: u64) -> (r: bool)
    ensures
        r == spec_is_locked(overwrites@, everyone_role_id),
{
    match find_target(overwrites, everyone_role_id, OverwriteKind::Role) {
        None => contains_bits(0, CONNECT),
        Some(o) => contains_bits(o.deny, CONNECT),
    }
}

/// The overwrite list after locking a voice channel: the everyone role
/// loses connect from its allows and gains it in its denies, while the bot
/// member and the owner are granted connect so neither is locked out.
pub open spec fn spec_lock_overwrites(
    s: Seq<Overwrite>,
    owner_id: Option<u64>,
    bot_user_id: u64,
    everyone_role_id: u64,
) -> Seq<Overwrite> {
    let ev = last_target(s, everyone_role_id, OverwriteKind::Role);
    let bot = last_target(s, bot_user_id, OverwriteKind::Member);
    let ow = if owner_id is Some {
        last_target(s, owner_id->0, OverwriteKind::Member)
    } else {
        None
    };
    let base = kept_entries(s, everyone_role_id, owner_id, Some(bot_user_id), None) + seq![
        Overwrite {
            id: everyone_role_id,
            kind: OverwriteKind::Role,
            allow: allow_of(ev) & !CONNECT,
            deny: deny_of(ev) | CONNECT,
        },
        Overwrite {
            id: bot_user_id,
            kind: OverwriteKind::Member,
            allow: allow_of(bot) | CONNECT,
            deny: deny_of(bot),
        },
    ];
    if owner_id is Some {
        base.push(Overwrite {
            id: owner_id->0,
            kind: OverwriteKind::Member,
            allow: allow_of(ow) | CONNECT,
            deny: deny_of(ow),
        })
    } else {
        base
    }
}

/// Computes the overwrites that lock a channel; see
/// [`spec_lock_overwrites`].
pub fn lock_overwrites(
    overwrites: &Vec<Overwrite>,
    owner_id: Option<u64>,
    bot_user_id: u64,
    everyone_role_id: u64,
) -> (r: Vec<Overwrite>)
    ensures
        r@ == spec_lock_overwrites(overwrites@, owner_id, bot_user_id, everyone_role_id),
{
    let (mut kept, everyone_slot, owner_slot, bot_slot) = extract_slots(
        overwrites,
        everyone_role_id,
        owner_id,
        Some(bot_user_id),
        None,
    );
    let (everyone_allow, everyone_deny) = match everyone_slot {
        Some(o) => (o.allow, o.deny),
        None => (0u64, 0u64),
    };
    let (bot_allow, bot_deny) = match bot_slot {
        Some(o) => (o.allow, o.deny),
        None => (0u64, 0u64),
    };
    let (owner_allow, owner_deny) = match owner_slot {
        Some(o) => (o.allow, o.deny),
        None => (0u64, 0u64),
    };
    kept.push(Overwrite {
        id: everyone_role_id,
        kind: OverwriteKind::Role,
        allow: everyone_allow & !CONNECT,
        deny: everyone_deny | CONNECT,
    });
    kept.push(Overwrite {
        id: bot_user_id,
        kind: OverwriteKind::Member,
        allow: bot_allow | CONNECT,
        deny: bot_deny,
    });
    if let Some(u) = owner_id {
        kept.push(Overwrite {
            id: u,
            kind: OverwriteKind::Member,
            allow: owner_allow | CONNECT,
            deny: owner_deny,
        });
    }
    proof {
        assert(kept@ =~= spec_lock_overwrites(
            overwrites@,
            owner_id,
            bot_user_id,
            everyone_role_id,
        ));
    }
    kept
}

/// The overwrite list after unlocking a voice channel: the everyone role's
/// denied connect bit is removed; the bot member keeps connect, and the
/// owner's entry is carried over unchanged.
pub open spec fn spec_unlock_overwrites(
    s: Seq<Overwrite>,
    owner_id: Option<u64>,
    bot_user_id: u64,
    everyone_role_id: u64,
) -> Seq<Overwrite> {
    let ev = last_target(s, everyone_role_id, OverwriteKind::Role);
    let bot = last_target(s, bot_user_id, OverwriteKind::Member);
    let ow = if owner_id is Some {
        last_target(s, owner_id->0, OverwriteKind::Member)
    } else {
        None
    };
    let base = kept_entries(s, everyone_role_id, owner_id, Some(bot_user_id), None) + seq![
        Overwrite {
            id: everyone_role_id,
            kind: OverwriteKind::Role,
            allow: allow_of(ev),
            deny: deny_of(ev) & !CONNECT,
        },
        Overwrite {
            id: bot_user_id,
            kind: OverwriteKind::Member,
            allow: allow_of(bot) | CONNECT,
            deny: deny_of(bot),
        },
    ];
    if owner_id is Some {
        base.push(Overwrite {
            id: owner_id->0,
            kind: OverwriteKind::Member,
            allow: allow_of(ow),
            deny: deny_of(ow),
        })
    } else {
        base
    }
}

/// Computes the overwrites that unlock a channel; see
/// [`spec_unlock_overwrites`].
pub fn unlock_overwrites(
    overwrites: &Vec<Overwrite>,
    owner_id: Option<u64>,
    bot_user_id: u64,
    everyone_role_id: u64,
) -> (r: Vec<Overwrite>)
    ensures
        r@ == spec_unlock_overwrites(overwrites@, owner_id, bot_user_id, everyone_role_id),
{
    let (mut kept, everyone_slot, owner_slot, bot_slot) = extract_slots(
        overwrites,
        everyone_role_id,
        owner_id,
        Some(bot_user_id),
        None,
    );
    let (everyone_allow, everyone_deny) = match everyone_slot {
        Some(o) => (o.allow, o.deny),
        None => (0u64, 0u64),
    };
    let (bot_allow, bot_deny) = match bot_slot {
        Some(o) => (o.allow, o.deny),
        None => (0u64, 0u64),
    };
    let (owner_allow, owner_deny) = match owner_slot {
        Some(o) => (o.allow, o.deny),
        None => (0u64, 0u64),
    };
    kept.push(Overwrite {
        id: everyone_role_id,
        kind: OverwriteKind::Role,
        allow: everyone_allow,
        deny: everyone_deny & !CONNECT,
    });
    kept.push(Overwrite {
        id: bot_user_id,
        kind: OverwriteKind::Member,
        allow: bot_allow | CONNECT,
        deny: bot_deny,
    });
    if let Some(u) = owner_id {
        kept.push(Overwrite {
            id: u,
            kind: OverwriteKind::Member,
            allow: owner_allow,
            deny: owner_deny,
        });
    }
    proof {
        assert(kept@ =~= spec_unlock_overwrites(
            overwrites@,
            owner_id,
            bot_user_id,
            everyone_role_id,
        ));
    }
    kept
}

/// The ids of the member-targeted entries, in order: the members that
/// carry their own overwrite on the channel.
pub open spec fn spec_member_overwrite_ids(s: Seq<Overwrite>) -> Seq<u64>
    decreases s.len(),
{
    if s.len() == 0 {
        Seq::empty()
    } else {
        let rest = spec_member_overwrite_ids(s.drop_last());
        if s.last().kind == OverwriteKind::Member {
            rest.push(s.last().id)
        } else {
            rest
        }
    }
}

/// Lists the members that carry their own overwrite on the channel; see
/// [`spec_member_overwrite_ids`].
pub fn member_overwrite_ids(overwrites: &Vec<Overwrite>) -> (r: Vec<u64>)
    ensures
        r@ == spec_member_overwrite_ids(overwrites@),
{
    let mut r: Vec<u64> = Vec::new();
    let mut i: usize = 0;
    while i < overwrites.len()
        invariant
            i <= overwrites@.len(),
            r@ == spec_member_overwrite_ids(overwrites@.take(i as int)),
        decreases overwrites@.len() - i,
    {
        let o = overwrites[i];
        proof {
            assert(overwrites@.take(i as int + 1).drop_last() =~= overwrites@.take(i as int));
            assert(overwrites@.take(i as int + 1).last() == o);
        }
        if o.kind == OverwriteKind::Member {
            r.push(o.id);
        }
        i += 1;
    }
    proof {
        assert(overwrites@.take(overwrites@.len() as int) =~= overwrites@);
    }
    r
}

/// Law: privacy modes are mutually exclusive. The overwrites produced by a
/// privacy switch express exactly the mode that was set: under locked the
/// everyone role is denied connect and not view, under invisible the
/// reverse, and under unlocked neither bit is denied.
pub proof fn lemma_privacy_switch_exclusive(
    s: Seq<Overwrite>,
    privacy: Privacy,
    owner_id: Option<u64>,
    everyone_role_id: u64,
)
    ensures
        spec_current_privacy(
            spec_apply_privacy(s, privacy, owner_id, everyone_role_id),
            everyone_role_id,
        ) == privacy,
        has_bits(
            deny_of(
                first_target(
                    spec_apply_privacy(s, privacy, owner_id, everyone_role_id),
                    everyone_role_id,
                    OverwriteKind::Role,
                ),
            ),
            CONNECT,
        ) == (privacy == Privacy::Locked),
        has_bits(
            deny_of(
                first_target(
                    spec_apply_privacy(s, privacy, owner_id, everyone_role_id),
                    everyone_role_id,
                    OverwriteKind::Role,
                ),
            ),
            VIEW_CHANNEL,
        ) == (privacy == Privacy::Invisible),
{
    let r = spec_apply_privacy(s, privacy, owner_id, everyone_role_id);
    let kept = kept_entries(s, everyone_role_id, owner_id, None, None);
    let ev = last_target(s, everyone_role_id, OverwriteKind::Role);
    let d = deny_of(ev);
    let everyone_deny = match privacy {
        Privacy::Unlocked => d & !(CONNECT | VIEW_CHANNEL),
        Privacy::Locked => (d & !VIEW_CHANNEL) | CONNECT,
        Privacy::Invisible => (d & !CONNECT) | VIEW_CHANNEL,
    };
    let ev_entry = Overwrite {
        id: everyone_role_id,
        kind: OverwriteKind::Role,
        allow: allow_of(ev),
        deny: everyone_deny,
    };
    lemma_kept_entries_keep(s, everyone_role_id, owner_id, None, None);
    let tail = if privacy != Privacy::Unlocked && owner_id is Some {
        let ow = last_target(s, owner_id->0, OverwriteKind::Member);
        seq![
            ev_entry,
            Overwrite {
                id: owner_id->0,
                kind: OverwriteKind::Member,
                allow: allow_of(ow) | privacy_deny_bit(privacy),
                deny: deny_of(ow),
            },
        ]
    } else {
        seq![ev_entry]
    };
    assert(r =~= kept + tail);
    lemma_first_target_append(kept, tail, everyone_role_id, OverwriteKind::Role);
    assert(tail[0].targets(everyone_role_id, OverwriteKind::Role));
    assert(first_target(tail, everyone_role_id, OverwriteKind::Role) == Some(ev_entry));
    match privacy {
        Privacy::Unlocked => {
            assert((d & !(0x100000u64 | 0x400)) & 0x100000 == 0) by (bit_vector);
            assert((d & !(0x100000u64 | 0x400)) & 0x400 == 0) by (bit_vector);
        },
        Privacy::Locked => {
            assert(((d & !0x400u64) | 0x100000) & 0x100000 == 0x100000) by (bit_vector);
            assert(((d & !0x400u64) | 0x100000) & 0x400 == 0) by (bit_vector);
        },
        Privacy::Invisible => {
            assert(((d & !0x100000u64) | 0x400) & 0x400 == 0x400) by (bit_vector);
            assert(((d & !0x100000u64) | 0x400) & 0x100000 == 0) by (bit_vector);
        },
    }
}

/// Law: locking denies the everyone role connect.
pub proof fn lemma_lock_locks(
    s: Seq<Overwrite>,
    owner_id: Option<u64>,
    bot_user_id: u64,
    everyone_role_id: u64,
)
    ensures
        spec_is_locked(
            spec_lock_overwrites(s, owner_id, bot_user_id, everyone_role_id),
            everyone_role_id,
        ),
{
    let r = spec_lock_overwrites(s, owner_id, bot_user_id, everyone_role_id);
    let kept = kept_entries(s, everyone_role_id, owner_id, Some(bot_user_id), None);
    let ev = last_target(s, everyone_role_id, OverwriteKind::Role);
    let bot = last_target(s, bot_user_id, OverwriteKind::Member);
    let ev_entry = Overwrite {
        id: everyone_role_id,
        kind: OverwriteKind::Role,
        allow: allow_of(ev) & !CONNECT,
        deny: deny_of(ev) | CONNECT,
    };
    let bot_entry = Overwrite {
        id: bot_user_id,
        kind: OverwriteKind::Member,
        allow: allow_of(bot) | CONNECT,
        deny: deny_of(bot),
    };
    lemma_kept_entries_keep(s, everyone_role_id, owner_id, Some(bot_user_id), None);
    let tail = if owner_id is Some {
        let ow = last_target(s, owner_id->0, OverwriteKind::Member);
        seq![
            ev_entry,
            bot_entry,
            Overwrite {
                id: owner_id->0,
                kind: OverwriteKind::Member,
                allow: allow_of(ow) | CONNECT,
                deny: deny_of(ow),
            },
        ]
    } else {
        seq![ev_entry, bot_entry]
    };
    assert(r =~= kept + tail);
    lemma_first_target_append(kept, tail, everyone_role_id, OverwriteKind::Role);
    assert(first_target(tail, everyone_role_id, OverwriteKind::Role) == Some(ev_entry));
    lemma_or_sets(deny_of(ev), CONNECT);
}

/// Law: unlocking removes the everyone role's denied connect bit.
pub proof fn lemma_unlock_unlocks(
    s: Seq<Overwrite>,
    owner_id: Option<u64>,
    bot_user_id: u64,
    everyone_role_id: u64,
)
    ensures
        !spec_is_locked(
            spec_unlock_overwrites(s, owner_id, bot_user_id, everyone_role_id),
            everyone_role_id,
        ),
{
    let r = spec_unlock_overwrites(s, owner_id, bot_user_id, everyone_role_id);
    let kept = kept_entries(s, everyone_role_id, owner_id, Some(bot_user_id), None);
    let ev = last_target(s, everyone_role_id, OverwriteKind::Role);
    let bot = last_target(s, bot_user_id, OverwriteKind::Member);
    let ev_entry = Overwrite {
        id: everyone_role_id,
        kind: OverwriteKind::Role,
        allow: allow_of(ev),
        deny: deny_of(ev) & !CONNECT,
    };
    let bot_entry = Overwrite {
        id: bot_user_id,
        kind: OverwriteKind::Member,
        allow: allow_of(bot) | CONNECT,
        deny: deny_of(bot),
    };
    lemma_kept_entries_keep(s, everyone_role_id, owner_id, Some(bot_user_id), None);
    let tail = if owner_id is Some {
        let ow = last_target(s, owner_id->0, OverwriteKind::Member);
        seq![
            ev_entry,
            bot_entry,
            Overwrite {
                id: owner_id->0,
                kind: OverwriteKind::Member,
                allow: allow_of(ow),
                deny: deny_of(ow),
            },
        ]
    } else {
        seq![ev_entry, bot_entry]
    };
    assert(r =~= kept + tail);
    lemma_first_target_append(kept, tail, everyone_role_id, OverwriteKind::Role);
    assert(first_target(tail, everyone_role_id, OverwriteKind::Role) == Some(ev_entry));
    lemma_andnot_clears(deny_of(ev), CONNECT);
    assert(CONNECT != 0) by (bit_vector);
}

/// The outcome of a panel action that grants a member or role access.
#[derive(Clone, Copy, PartialEq, Eq, Structural, Debug)]
pub enum GrantOutcome {
    /// The target is protected or platform-managed: the action is rejected
    /// and no remote update may be made.
    Rejected,
    /// Push one overwrite entry carrying these bits; `previous_allow` is
    /// what the target was allowed before, for the caller's report.
    Apply { allow: u64, deny: u64, previous_allow: u64 },
}

/// Decides a panel request to grant a member connect and view access. The
/// bot itself and the channel's current owner are protected targets:
/// granting to them is rejected outright, with no remote update. Otherwise
/// connect and view are added on top of whatever entry the member had.
pub fn grant_member_decision(
    overwrites: &Vec<Overwrite>,
    target_id: u64,
    bot_user_id: u64,
    owner_id: Option<u64>,
) -> (r: GrantOutcome)
    ensures
        (target_id == bot_user_id || owner_id == Some(target_id)) <==> r is Rejected,
        r is Apply ==> {
            let prev = first_target(overwrites@, target_id, OverwriteKind::Member);
            &&& r->Apply_allow == allow_of(prev) | CONNECT | VIEW_CHANNEL
            &&& r->Apply_deny == deny_of(prev)
            &&& r->Apply_previous_allow == allow_of(prev)
        },
{
    let protected = target_id == bot_user_id || (match owner_id {
        Some(u) => u == target_id,
        None => false,
    });
    if protected {
        return GrantOutcome::Rejected;
    }
    let prev = find_target(overwrites, target_id, OverwriteKind::Member);
    let (allow, deny) = match prev {
        Some(o) => (o.allow, o.deny),
        None => (0u64, 0u64),
    };
    GrantOutcome::Apply { allow: allow | CONNECT | VIEW_CHANNEL, deny, previous_allow: allow }
}

/// Decides a panel request to grant a role connect and view access. A
/// platform-managed role (an integration's role) is never a valid target:
/// the request is rejected with no remote update.
pub fn grant_role_decision(overwrites: &Vec<Overwrite>, role_id: u64, is_managed: bool) -> (r:
    GrantOutcome)
    ensures
        is_managed <==> r is Rejected,
        r is Apply ==> {
            let prev = first_target(overwrites@, role_id, OverwriteKind::Role);
            &&& r->Apply_allow == allow_of(prev) | CONNECT | VIEW_CHANNEL
            &&& r->Apply_deny == deny_of(prev)
            &&& r->Apply_previous_allow == allow_of(prev)
        },
{
    if is_managed {
        return GrantOutcome::Rejected;
    }
    let prev = find_target(overwrites, role_id, OverwriteKind::Role);
    let (allow, deny) = match prev {
        Some(o) => (o.allow, o.deny),
        None => (0u64, 0u64),
    };
    GrantOutcome::Apply { allow: allow | CONNECT | VIEW_CHANNEL, deny, previous_allow: allow }
}

/// Decides a panel request to deny a member connect and view access. The
/// bot itself and the channel's current owner are protected targets. The
/// denied bits also leave the member's allows: a deny is the opposite of a
/// grant, not a third state beside it.
pub fn deny_member_decision(
    overwrites: &Vec<Overwrite>,
    target_id: u64,
    bot_user_id: u64,
    owner_id: Option<u64>,
) -> (r: GrantOutcome)
    ensures
        (target_id == bot_user_id || owner_id == Some(target_id)) <==> r is Rejected,
        r is Apply ==> {
            let prev = first_target(overwrites@, target_id, OverwriteKind::Member);
            &&& r->Apply_allow == allow_of(prev) & !(CONNECT | VIEW_CHANNEL)
            &&& r->Apply_deny == deny_of(prev) | CONNECT | VIEW_CHANNEL
            &&& r->Apply_previous_allow == allow_of(prev)
        },
{
    let protected = target_id == bot_user_id || (match owner_id {
        Some(u) => u == target_id,
        None => false,
    });
    if protected {
        return GrantOutcome::Rejected;
    }
    let prev = find_target(overwrites, target_id, OverwriteKind::Member);
    let (allow, deny) = match prev {
        Some(o) => (o.allow, o.deny),
        None => (0u64, 0u64),
    };
    GrantOutcome::Apply {
        allow: allow & !(CONNECT | VIEW_CHANNEL),
        deny: deny | CONNECT | VIEW_CHANNEL,
        previous_allow: allow,
    }
}

/// The outcome of a panel action that revokes access.
#[derive(Clone, Copy, PartialEq, Eq, Structural, Debug)]
pub enum RevokeOutcome {
    /// The target is protected or platform-managed: rejected, no remote
    /// update may be made.
    Rejected,
    /// The target carries no overwrite entry: nothing to revoke.
    NoEntry,
    /// Delete the target's overwrite entry outright.
    Delete,
    /// Push the shrunken entry carrying these bits.
    Update { allow: u64, deny: u64 },
}

/// Decides a panel request to strip a member's overwrite entry. The bot
/// itself and the channel's owner are protected; a member without an entry
/// has nothing to remove; otherwise the entry is deleted outright.
pub fn remove_member_decision(
    overwrites: &Vec<Overwrite>,
    target_id: u64,
    bot_user_id: u64,
    owner_id: Option<u64>,
) -> (r: RevokeOutcome)
    ensures
        (target_id == bot_user_id || owner_id == Some(target_id)) <==> r is Rejected,
        !(target_id == bot_user_id || owner_id == Some(target_id)) ==> {
            let prev = first_target(overwrites@, target_id, OverwriteKind::Member);
            r == if prev is None {
                RevokeOutcome::NoEntry
            } else {
                RevokeOutcome::Delete
            }
        },
{
    let protected = target_id == bot_user_id || (match owner_id {
        Some(u) => u == target_id,
        None => false,
    });
    if protected {
        return RevokeOutcome::Rejected;
    }
    match find_target(overwrites, target_id, OverwriteKind::Member) {
        None => RevokeOutcome::NoEntry,
        Some(_) => RevokeOutcome::Delete,
    }
}

/// Decides a panel request to revoke a role's connect and view access. A
/// managed role is rejected; a role without an entry has nothing to
/// revoke; otherwise connect and view leave the allows, and an entry left
/// with no information at all is deleted rather than kept.
pub fn revoke_role_decision(overwrites: &Vec<Overwrite>, role_id: u64, is_managed: bool) -> (r:
    RevokeOutcome)
    ensures
        is_managed <==> r is Rejected,
        !is_managed ==> {
            let prev = first_target(overwrites@, role_id, OverwriteKind::Role);
            r == if prev is None {
                RevokeOutcome::NoEntry
            } else if allow_of(prev) & !(CONNECT | VIEW_CHANNEL) == 0 && deny_of(prev) == 0 {
                RevokeOutcome::Delete
            } else {
                (RevokeOutcome::Update {
                    allow: allow_of(prev) & !(CONNECT | VIEW_CHANNEL),
                    deny: deny_of(prev),
                })
            }
        },
{
    if is_managed {
        return RevokeOutcome::Rejected;
    }
    match find_target(overwrites, role_id, OverwriteKind::Role) {
        None => RevokeOutcome::NoEntry,
        Some(o) => {
            let allow = o.allow & !(CONNECT | VIEW_CHANNEL);
            if allow == 0 && o.deny == 0 {
                RevokeOutcome::Delete
            } else {
                RevokeOutcome::Update { allow, deny: o.deny }
            }
        },
    }
}

/// The everyone-role entry pushed onto a category (and its trigger
/// channel) when the guild's default privacy changes: connect and view are
/// cleared from both bit sets, then the new mode's deny bit is applied.
pub fn category_privacy_entry(
    overwrites: &Vec<Overwrite>,
    privacy: Privacy,
    everyone_role_id: u64,
) -> (r: (u64, u64))
    ensures
        ({
            let prev = first_target(overwrites@, everyone_role_id, OverwriteKind::Role);
            &&& r.0 == allow_of(prev) & !(CONNECT | VIEW_CHANNEL)
            &&& r.1 == (deny_of(prev) & !(CONNECT | VIEW_CHANNEL)) | privacy_deny_bit(privacy)
        }),
{
    let prev = find_target(overwrites, everyone_role_id, OverwriteKind::Role);
    let (allow, deny) = match prev {
        Some(o) => (o.allow, o.deny),
        None => (0u64, 0u64),
    };
    (
        allow & !(CONNECT | VIEW_CHANNEL),
        (deny & !(CONNECT | VIEW_CHANNEL)) | privacy_deny_bit_of(privacy),
    )
}

/// The overwrites a new voice category is created with: everyone denied
/// view when the guild's default privacy is invisible, and the bot's
/// managed role granted view.
pub fn category_creation_overwrites(
    everyone_role_id: u64,
    bot_role_id: u64,
    privacy: Privacy,
) -> (r: Vec<Overwrite>)
    ensures
        r@ =~= seq![
            Overwrite {
                id: everyone_role_id,
                kind: OverwriteKind::Role,
                allow: 0,
                deny: if privacy == Privacy::Invisible {
                    VIEW_CHANNEL
                } else {
                    0
                },
            },
            Overwrite {
                id: bot_role_id,
                kind: OverwriteKind::Role,
                allow: VIEW_CHANNEL,
                deny: 0,
            },
        ],
{
    let everyone_deny: u64 = match privacy {
        Privacy::Invisible => VIEW_CHANNEL,
        _ => 0,
    };
    let mut r: Vec<Overwrite> = Vec::new();
    r.push(Overwrite {
        id: everyone_role_id,
        kind: OverwriteKind::Role,
        allow: 0,
        deny: everyone_deny,
    });
    r.push(Overwrite { id: bot_role_id, kind: OverwriteKind::Role, allow: VIEW_CHANNEL, deny: 0 });
    r
}

/// The overwrites a new trigger ("join") channel is created with: the
/// bot's managed role granted connect and view.
pub fn join_channel_overwrites(bot_role_id: u64) -> (r: Vec<Overwrite>)
    ensures
        r@ =~= seq![
            Overwrite {
                id: bot_role_id,
                kind: OverwriteKind::Role,
                allow: CONNECT | VIEW_CHANNEL,
                deny: 0,
            },
        ],
{
    let mut r: Vec<Overwrite> = Vec::new();
    r.push(Overwrite {
        id: bot_role_id,
        kind: OverwriteKind::Role,
        allow: CONNECT | VIEW_CHANNEL,
        deny: 0,
    });
    r
}

} // verus!
