//! The in-process mirror of guild, category, voice-channel, voice-presence
//! and ownership state.
//!
//! The cache is a read-optimization, not the source of truth: every lookup
//! miss is treated as "this entity is not currently known" and mutating
//! operations short-circuit without touching anything else. The operations
//! enforce the cross-entity invariants stated in [`Cache::wf`]: child-id
//! sets mirror the cached entities, presence and ownership indices agree
//! with the per-channel fields, and a category's trigger ("join") channel
//! is never itself a cached voice channel.

use vstd::prelude::*;
use std::collections::HashMap;
use std::collections::HashSet;
use crate::perms::{Overwrite, Privacy};

verus! {

broadcast use vstd::std_specs::hash::group_hash_axioms;

/// A guild as the cache knows it.
#[derive(Clone, Debug)]
pub struct CachedGuild {
    /// The bot's own managed role in this guild.
    pub bot_role_id: u64,
    /// Ids of the voice-channel categories belonging to this guild.
    pub category_channel_ids: Vec<u64>,
    pub id: u64,
    /// When true, empty temporary voice channels are never auto-deleted.
    pub permanence: bool,
    /// Default privacy of newly provisioned voice channels.
    pub privacy: Privacy,
}

/// A category channel: owns temporary voice channels and, optionally, a
/// trigger ("join") channel that provisions them.
#[derive(Clone, Debug)]
pub struct CachedCategoryChannel {
    pub guild_id: u64,
    pub id: u64,
    /// The trigger channel, referenced only by id: it is never a cached
    /// voice channel itself.
    pub join_channel_id: Option<u64>,
    /// Template overwrites copied onto newly provisioned voice channels.
    pub permission_overwrites: Vec<Overwrite>,
    /// The voice channels currently spawned under this category.
    pub voice_channel_ids: Vec<u64>,
}

/// A temporary voice channel.
#[derive(Clone, Debug)]
pub struct CachedVoiceChannel {
    /// Users currently connected to this channel.
    pub connected_user_ids: Vec<u64>,
    pub guild_id: u64,
    pub id: u64,
    /// The owner, if the channel currently has one.
    pub owner_id: Option<u64>,
    /// The control-panel message, if one is currently recorded.
    pub panel_message_id: Option<u64>,
    /// The category this channel was spawned under.
    pub parent_id: u64,
    pub permission_overwrites: Vec<Overwrite>,
}

/// The key of a per-guild, per-user index entry.
pub closed spec fn pk(guild_id: u64, user_id: u64) -> u128 {
    ((guild_id as u128) * 0x1_0000_0000_0000_0000 + (user_id as u128)) as u128
}

proof fn lemma_pk_injective(g1: u64, u1: u64, g2: u64, u2: u64)
    requires
        pk(g1, u1) == pk(g2, u2),
    ensures
        g1 == g2,
        u1 == u2,
{
}

fn pack_key(guild_id: u64, user_id: u64) -> (k: u128)
    ensures
        k == pk(guild_id, user_id),
{
    (guild_id as u128) * 0x1_0000_0000_0000_0000u128 + (user_id as u128)
}

/// Whether `v` holds `x`.
pub fn vec_contains(v: &Vec<u64>, x: u64) -> (r: bool)
    ensures
        r == v@.contains(x),
{
    let mut i: usize = 0;
    while i < v.len()
        invariant
            i <= v@.len(),
            forall|j: int| 0 <= j < i ==> v@[j] != x,
        decreases v@.len() - i,
    {
        if v[i] == x {
            return true;
        }
        i += 1;
    }
    false
}

/// Removes any occurrence of `x` from a duplicate-free vector.
fn vec_remove_value(v: &mut Vec<u64>, x: u64)
    requires
        old(v)@.no_duplicates(),
    ensures
        final(v)@.no_duplicates(),
        forall|y: u64| #[trigger] final(v)@.contains(y) == (old(v)@.contains(y) && y != x),
{
    let mut r: Vec<u64> = Vec::new();
    let mut i: usize = 0;
    while i < v.len()
        invariant
            v@ == old(v)@,
            old(v)@.no_duplicates(),
            i <= v@.len(),
            r@.no_duplicates(),
            forall|y: u64|
                #[trigger] r@.contains(y) == (v@.take(i as int).contains(y) && y != x),
        decreases v@.len() - i,
    {
        let e = v[i];
        let ghost r0: Seq<u64> = r@;
        proof {
            assert(v@.take(i as int + 1) =~= v@.take(i as int).push(e));
        }
        if e != x {
            proof {
                if r@.contains(e) {
                    let j = choose|j: int|
                        0 <= j < i && #[trigger] v@.take(i as int)[j] == e;
                    assert(v@[j] == v@[i as int]);
                    assert(false);
                }
            }
            r.push(e);
        }
        proof {
            assert forall|y: u64|
                #[trigger] r@.contains(y)
                    == (v@.take(i as int + 1).contains(y) && y != x) by {
                if r@.contains(y) {
                    let j = choose|j: int| 0 <= j < r@.len() && r@[j] == y;
                    if j < r0.len() {
                        assert(r0[j] == y);
                        assert(r0.contains(y));
                        let k = choose|k: int|
                            0 <= k < i && #[trigger] v@.take(i as int)[k] == y;
                        assert(v@.take(i as int + 1)[k] == y);
                        assert(v@.take(i as int + 1).contains(y));
                        assert(y != x);
                    } else {
                        assert(y == e && e != x);
                        assert(v@.take(i as int + 1)[i as int] == e);
                        assert(v@.take(i as int + 1).contains(y));
                    }
                }
                if v@.take(i as int + 1).contains(y) && y != x {
                    let j = choose|j: int|
                        0 <= j <= i && #[trigger] v@.take(i as int + 1)[j] == y;
                    if j < i {
                        assert(v@.take(i as int)[j] == y);
                        assert(v@.take(i as int).contains(y));
                        assert(r0.contains(y));
                        let k = choose|k: int| 0 <= k < r0.len() && r0[k] == y;
                        assert(r@[k] == y);
                        assert(r@.contains(y));
                    } else {
                        assert(y == e);
                        assert(r@[r@.len() - 1] == e);
                        assert(r@.contains(y));
                    }
                }
            }
        }
        i += 1;
    }
    proof {
        assert(v@.take(v@.len() as int) =~= v@);
    }
    *v = r;
}

/// Adds an id to a duplicate-free vector unless it is already there.
pub fn vec_push_unique(v: &mut Vec<u64>, x: u64)
    requires
        old(v)@.no_duplicates(),
    ensures
        final(v)@.no_duplicates(),
        forall|y: u64| #[trigger] final(v)@.contains(y) == (old(v)@.contains(y) || y == x),
{
    let ghost s0: Seq<u64> = v@;
    if !vec_contains(v, x) {
        v.push(x);
        proof {
            assert forall|y: u64|
                #[trigger] v@.contains(y) == (s0.contains(y) || y == x) by {
                if v@.contains(y) {
                    let j = choose|j: int| 0 <= j < v@.len() && v@[j] == y;
                    if j < s0.len() {
                        assert(s0[j] == y);
                    }
                }
                if s0.contains(y) {
                    let j = choose|j: int| 0 <= j < s0.len() && s0[j] == y;
                    assert(v@[j] == y);
                }
                if y == x {
                    assert(v@[v@.len() - 1] == x);
                }
            }
            assert(v@.no_duplicates()) by {
                assert forall|i: int, j: int| 0 <= i < j < v@.len() implies v@[i] != v@[j] by {
                    if j < s0.len() {
                        assert(v@[i] == s0[i] && v@[j] == s0[j]);
                    } else {
                        assert(v@[j] == x);
                        assert(v@[i] == s0[i]);
                        if s0[i] == x {
                            assert(s0.contains(x));
                        }
                    }
                }
            }
        }
    }
}

/// An owned copy of a vector of ids.
pub fn vec_copy(v: &Vec<u64>) -> (r: Vec<u64>)
    ensures
        r@ == v@,
{
    let mut r: Vec<u64> = Vec::new();
    let mut i: usize = 0;
    while i < v.len()
        invariant
            i <= v@.len(),
            r@ == v@.take(i as int),
        decreases v@.len() - i,
    {
        r.push(v[i]);
        assert(r@ == v@.take(i + 1 as int));
        i += 1;
    }
    assert(r@ == v@);
    r
}

/// The authoritative in-process mirror of one bot's guild-voice domain:
/// guilds, their categories and temporary voice channels, who is connected
/// where, and who owns which channel.
pub struct Cache {
    category_channels: HashMap<u64, CachedCategoryChannel>,
    guilds: HashMap<u64, CachedGuild>,
    join_channels: HashMap<u64, u64>,
    unavailable_guilds: HashSet<u64>,
    voice_channel_owners: HashMap<u128, u64>,
    voice_channels: HashMap<u64, CachedVoiceChannel>,
    voice_states: HashMap<u128, u64>,
}

impl Cache {
    /// The cached guilds, by id.
    pub closed spec fn guild_map(self) -> Map<u64, CachedGuild> {
        self.guilds@
    }

    /// The cached category channels, by id.
    pub closed spec fn category_map(self) -> Map<u64, CachedCategoryChannel> {
        self.category_channels@
    }

    /// The cached voice channels, by id.
    pub closed spec fn voice_map(self) -> Map<u64, CachedVoiceChannel> {
        self.voice_channels@
    }

    /// The trigger-channel index: join channel id to its category's id.
    pub closed spec fn join_map(self) -> Map<u64, u64> {
        self.join_channels@
    }

    /// Guild ids the platform currently reports unreachable.
    pub closed spec fn unavailable_set(self) -> Set<u64> {
        self.unavailable_guilds@
    }

    /// The voice channel a user currently occupies in a guild, if any.
    pub closed spec fn presence_at(self, guild_id: u64, user_id: u64) -> Option<u64> {
        if self.voice_states@.contains_key(pk(guild_id, user_id)) {
            Some(self.voice_states@[pk(guild_id, user_id)])
        } else {
            None
        }
    }

    /// The voice channel a user currently owns in a guild, if any.
    pub closed spec fn owner_at(self, guild_id: u64, user_id: u64) -> Option<u64> {
        if self.voice_channel_owners@.contains_key(pk(guild_id, user_id)) {
            Some(self.voice_channel_owners@[pk(guild_id, user_id)])
        } else {
            None
        }
    }

    /// Guilds and categories agree: a category id stands in a guild's set
    /// exactly when that category is cached and names the guild as its
    /// owner, and every cached category's guild is itself cached.
    pub open spec fn guild_cats_wf(self) -> bool {
        &&& forall|g: u64| #[trigger] self.guild_map().contains_key(g) ==> {
            &&& self.guild_map()[g].id == g
            &&& self.guild_map()[g].category_channel_ids@.no_duplicates()
        }
        &&& forall|g: u64, c: u64|
            self.guild_map().contains_key(g)
                && #[trigger] self.guild_map()[g].category_channel_ids@.contains(c) ==> {
                &&& self.category_map().contains_key(c)
                &&& self.category_map()[c].guild_id == g
            }
        &&& forall|c: u64| #[trigger] self.category_map().contains_key(c) ==> {
            &&& self.category_map()[c].id == c
            &&& self.guild_map().contains_key(self.category_map()[c].guild_id)
            &&& self.guild_map()[self.category_map()[c].guild_id]
                .category_channel_ids@.contains(c)
        }
    }

    /// Categories and voice channels agree: a voice-channel id stands in a
    /// category's set exactly when that channel is cached with the category
    /// as its parent, and every cached channel's parent is cached.
    pub open spec fn cat_voices_wf(self) -> bool {
        &&& forall|c: u64| #[trigger] self.category_map().contains_key(c)
            ==> self.category_map()[c].voice_channel_ids@.no_duplicates()
        &&& forall|c: u64, v: u64|
            self.category_map().contains_key(c)
                && #[trigger] self.category_map()[c].voice_channel_ids@.contains(v) ==> {
                &&& self.voice_map().contains_key(v)
                &&& self.voice_map()[v].parent_id == c
            }
        &&& forall|v: u64| #[trigger] self.voice_map().contains_key(v) ==> {
            &&& self.voice_map()[v].id == v
            &&& self.voice_map()[v].connected_user_ids@.no_duplicates()
            &&& self.category_map().contains_key(self.voice_map()[v].parent_id)
            &&& self.category_map()[self.voice_map()[v].parent_id]
                .voice_channel_ids@.contains(v)
        }
    }

    /// Every presence entry points to a cached channel of its guild whose
    /// connected set holds the user, and every connected user has the
    /// matching entry. A user in an untracked channel has no entry: the
    /// lifecycle rules never act on such a channel.
    pub open spec fn presence_wf(self) -> bool {
        &&& forall|g: u64, u: u64| #[trigger] self.presence_at(g, u) is Some ==> {
                let c = self.presence_at(g, u)->0;
                &&& self.voice_map().contains_key(c)
                &&& self.voice_map()[c].guild_id == g
                &&& self.voice_map()[c].connected_user_ids@.contains(u)
            }
        &&& forall|v: u64, u: u64|
            self.voice_map().contains_key(v)
                && #[trigger] self.voice_map()[v].connected_user_ids@.contains(u)
            ==> self.presence_at(self.voice_map()[v].guild_id, u) == Some(v)
    }

    /// Every ownership entry names a cached channel owned by that user in
    /// that guild, and every owned channel has the matching entry.
    pub open spec fn owners_wf(self) -> bool {
        &&& forall|g: u64, u: u64| #[trigger] self.owner_at(g, u) is Some ==> {
            let c = self.owner_at(g, u)->0;
            &&& self.voice_map().contains_key(c)
            &&& self.voice_map()[c].guild_id == g
            &&& self.voice_map()[c].owner_id == Some(u)
        }
        &&& forall|v: u64|
            #[trigger] self.voice_map().contains_key(v)
                && self.voice_map()[v].owner_id is Some
            ==> self.owner_at(
                self.voice_map()[v].guild_id,
                self.voice_map()[v].owner_id->0,
            ) == Some(v)
    }

    /// The trigger index is exact, and no trigger channel is itself a
    /// cached voice channel.
    pub open spec fn joins_wf(self) -> bool {
        &&& forall|j: u64| #[trigger] self.join_map().contains_key(j) ==> {
            let c = self.join_map()[j];
            &&& self.category_map().contains_key(c)
            &&& self.category_map()[c].join_channel_id == Some(j)
            &&& !self.voice_map().contains_key(j)
        }
        &&& forall|c: u64|
            #[trigger] self.category_map().contains_key(c)
                && self.category_map()[c].join_channel_id is Some ==> {
                let j = self.category_map()[c].join_channel_id->0;
                &&& self.join_map().contains_key(j)
                &&& self.join_map()[j] == c
            }
    }

    /// A voice channel belongs to the guild of its parent category, so a
    /// guild's cascade reaches every channel spawned under it.
    pub open spec fn parent_guild_wf(self) -> bool {
        forall|v: u64| #[trigger] self.voice_map().contains_key(v)
            ==> self.voice_map()[v].guild_id == self.category_map()[self.voice_map()[v].parent_id].guild_id
    }

    /// Well-formedness: the cross-entity invariants that every operation
    /// preserves.
    pub open spec fn wf(self) -> bool {
        &&& self.guild_cats_wf()
        &&& self.cat_voices_wf()
        &&& self.presence_wf()
        &&& self.owners_wf()
        &&& self.joins_wf()
        &&& self.parent_guild_wf()
    }

    /// Nothing observable differs between the two states.
    pub open spec fn same_state(a: Cache, b: Cache) -> bool {
        &&& b.guild_map() == a.guild_map()
        &&& b.category_map() == a.category_map()
        &&& b.voice_map() == a.voice_map()
        &&& b.join_map() == a.join_map()
        &&& b.unavailable_set() == a.unavailable_set()
        &&& Self::same_indices(a, b)
    }

    /// The presence and ownership indices agree between the two states.
    pub open spec fn same_indices(a: Cache, b: Cache) -> bool {
        &&& forall|g: u64, u: u64| #[trigger] b.presence_at(g, u) == a.presence_at(g, u)
        &&& forall|g: u64, u: u64| #[trigger] b.owner_at(g, u) == a.owner_at(g, u)
    }

    /// Well-formedness depends only on the six indexed maps, not on the
    /// unavailable-guild set.
    proof fn lemma_wf_same_maps(a: Cache, b: Cache)
        requires
            a.wf(),
            b.guilds@ == a.guilds@,
            b.category_channels@ == a.category_channels@,
            b.voice_channels@ == a.voice_channels@,
            b.join_channels@ == a.join_channels@,
            b.voice_states@ == a.voice_states@,
            b.voice_channel_owners@ == a.voice_channel_owners@,
        ensures
            b.wf(),
    {
        assert forall|g: u64, u: u64|
            #[trigger] b.presence_at(g, u) == a.presence_at(g, u) by {}
        assert forall|g: u64, u: u64|
            #[trigger] b.owner_at(g, u) == a.owner_at(g, u) by {}
        assert(b.guild_map() == a.guild_map());
        assert(b.category_map() == a.category_map());
        assert(b.voice_map() == a.voice_map());
        assert(b.join_map() == a.join_map());
    }

    /// Replacing a guild's value without touching its id or category set
    /// preserves well-formedness.
    proof fn lemma_wf_guild_value(a: Cache, b: Cache, id: u64)
        requires
            a.wf(),
            a.guilds@.contains_key(id),
            b.guilds@ =~= a.guilds@.insert(id, b.guilds@[id]),
            b.guilds@[id].id == a.guilds@[id].id,
            b.guilds@[id].category_channel_ids@ == a.guilds@[id].category_channel_ids@,
            b.category_channels@ == a.category_channels@,
            b.voice_channels@ == a.voice_channels@,
            b.join_channels@ == a.join_channels@,
            b.voice_states@ == a.voice_states@,
            b.voice_channel_owners@ == a.voice_channel_owners@,
        ensures
            b.wf(),
            Self::same_indices(a, b),
    {
        assert forall|g: u64, u: u64|
            #[trigger] b.presence_at(g, u) == a.presence_at(g, u) by {}
        assert forall|g: u64, u: u64|
            #[trigger] b.owner_at(g, u) == a.owner_at(g, u) by {}
        assert(b.category_map() == a.category_map());
        assert(b.voice_map() == a.voice_map());
        assert(b.join_map() == a.join_map());
        assert(b.guild_cats_wf()) by {
            assert forall|g: u64| #[trigger] b.guild_map().contains_key(g) implies {
                &&& b.guild_map()[g].id == g
                &&& b.guild_map()[g].category_channel_ids@.no_duplicates()
            } by {
                assert(a.guild_map().contains_key(g));
            }
            assert forall|g: u64, c: u64|
                b.guild_map().contains_key(g)
                    && #[trigger] b.guild_map()[g].category_channel_ids@.contains(c) implies {
                &&& b.category_map().contains_key(c)
                &&& b.category_map()[c].guild_id == g
            } by {
                assert(a.guild_map().contains_key(g));
                assert(a.guild_map()[g].category_channel_ids@.contains(c));
            }
            assert forall|c: u64| #[trigger] b.category_map().contains_key(c) implies {
                &&& b.category_map()[c].id == c
                &&& b.guild_map().contains_key(b.category_map()[c].guild_id)
                &&& b.guild_map()[b.category_map()[c].guild_id]
                    .category_channel_ids@.contains(c)
            } by {
                assert(a.category_map().contains_key(c));
            }
        }
    }

    /// Replacing a voice channel's value without touching its structural
    /// fields (id, guild, parent, owner, connected users) preserves
    /// well-formedness.
    proof fn lemma_wf_voice_value(a: Cache, b: Cache, id: u64)
        requires
            a.wf(),
            a.voice_channels@.contains_key(id),
            b.voice_channels@ =~= a.voice_channels@.insert(id, b.voice_channels@[id]),
            b.voice_channels@[id].id == a.voice_channels@[id].id,
            b.voice_channels@[id].guild_id == a.voice_channels@[id].guild_id,
            b.voice_channels@[id].parent_id == a.voice_channels@[id].parent_id,
            b.voice_channels@[id].owner_id == a.voice_channels@[id].owner_id,
            b.voice_channels@[id].connected_user_ids@
                == a.voice_channels@[id].connected_user_ids@,
            b.guilds@ == a.guilds@,
            b.category_channels@ == a.category_channels@,
            b.join_channels@ == a.join_channels@,
            b.voice_states@ == a.voice_states@,
            b.voice_channel_owners@ == a.voice_channel_owners@,
        ensures
            b.wf(),
            Self::same_indices(a, b),
    {
        assert forall|g: u64, u: u64|
            #[trigger] b.presence_at(g, u) == a.presence_at(g, u) by {}
        assert forall|g: u64, u: u64|
            #[trigger] b.owner_at(g, u) == a.owner_at(g, u) by {}
        assert(b.guild_map() == a.guild_map());
        assert(b.category_map() == a.category_map());
        assert(b.join_map() == a.join_map());
        assert(b.cat_voices_wf()) by {
            assert forall|c: u64, v: u64|
                b.category_map().contains_key(c)
                    && #[trigger] b.category_map()[c].voice_channel_ids@.contains(v) implies {
                &&& b.voice_map().contains_key(v)
                &&& b.voice_map()[v].parent_id == c
            } by {
                assert(a.category_map()[c].voice_channel_ids@.contains(v));
            }
            assert forall|v: u64| #[trigger] b.voice_map().contains_key(v) implies {
                &&& b.voice_map()[v].id == v
                &&& b.voice_map()[v].connected_user_ids@.no_duplicates()
                &&& b.category_map().contains_key(b.voice_map()[v].parent_id)
                &&& b.category_map()[b.voice_map()[v].parent_id]
                    .voice_channel_ids@.contains(v)
            } by {
                assert(a.voice_map().contains_key(v));
            }
        }
        assert(b.presence_wf()) by {
            assert forall|g: u64, u: u64|
                #[trigger] b.presence_at(g, u) is Some
                    && b.voice_map().contains_key(b.presence_at(g, u)->0) implies {
                let c = b.presence_at(g, u)->0;
                &&& b.voice_map()[c].guild_id == g
                &&& b.voice_map()[c].connected_user_ids@.contains(u)
            } by {
                assert(a.presence_at(g, u) is Some);
                assert(a.voice_map().contains_key(a.presence_at(g, u)->0));
            }
            assert forall|v: u64, u: u64|
                b.voice_map().contains_key(v)
                    && #[trigger] b.voice_map()[v].connected_user_ids@.contains(u)
                implies b.presence_at(b.voice_map()[v].guild_id, u) == Some(v) by {
                assert(a.voice_map().contains_key(v));
                assert(a.voice_map()[v].connected_user_ids@.contains(u));
            }
        }
        assert(b.owners_wf()) by {
            assert forall|g: u64, u: u64| #[trigger] b.owner_at(g, u) is Some implies {
                let c = b.owner_at(g, u)->0;
                &&& b.voice_map().contains_key(c)
                &&& b.voice_map()[c].guild_id == g
                &&& b.voice_map()[c].owner_id == Some(u)
            } by {
                assert(a.owner_at(g, u) is Some);
            }
            assert forall|v: u64|
                #[trigger] b.voice_map().contains_key(v)
                    && b.voice_map()[v].owner_id is Some
                implies b.owner_at(
                    b.voice_map()[v].guild_id,
                    b.voice_map()[v].owner_id->0,
                ) == Some(v) by {
                assert(a.voice_map().contains_key(v));
            }
        }
        assert(b.joins_wf()) by {
            assert forall|j: u64| #[trigger] b.join_map().contains_key(j) implies {
                let c = b.join_map()[j];
                &&& b.category_map().contains_key(c)
                &&& b.category_map()[c].join_channel_id == Some(j)
                &&& !b.voice_map().contains_key(j)
            } by {
                assert(a.join_map().contains_key(j));
            }
        }
    }

    /// Replacing a category's value without touching its structural fields
    /// (id, guild, join channel, child set) preserves well-formedness.
    proof fn lemma_wf_category_value(a: Cache, b: Cache, id: u64)
        requires
            a.wf(),
            a.category_channels@.contains_key(id),
            b.category_channels@ =~= a.category_channels@.insert(id, b.category_channels@[id]),
            b.category_channels@[id].id == a.category_channels@[id].id,
            b.category_channels@[id].guild_id == a.category_channels@[id].guild_id,
            b.category_channels@[id].join_channel_id
                == a.category_channels@[id].join_channel_id,
            b.category_channels@[id].voice_channel_ids@
                == a.category_channels@[id].voice_channel_ids@,
            b.guilds@ == a.guilds@,
            b.voice_channels@ == a.voice_channels@,
            b.join_channels@ == a.join_channels@,
            b.voice_states@ == a.voice_states@,
            b.voice_channel_owners@ == a.voice_channel_owners@,
        ensures
            b.wf(),
            Self::same_indices(a, b),
    {
        assert forall|g: u64, u: u64|
            #[trigger] b.presence_at(g, u) == a.presence_at(g, u) by {}
        assert forall|g: u64, u: u64|
            #[trigger] b.owner_at(g, u) == a.owner_at(g, u) by {}
        assert(b.guild_map() == a.guild_map());
        assert(b.voice_map() == a.voice_map());
        assert(b.join_map() == a.join_map());
        assert(b.guild_cats_wf()) by {
            assert forall|g: u64, c: u64|
                b.guild_map().contains_key(g)
                    && #[trigger] b.guild_map()[g].category_channel_ids@.contains(c) implies {
                &&& b.category_map().contains_key(c)
                &&& b.category_map()[c].guild_id == g
            } by {
                assert(a.guild_map()[g].category_channel_ids@.contains(c));
            }
            assert forall|c: u64| #[trigger] b.category_map().contains_key(c) implies {
                &&& b.category_map()[c].id == c
                &&& b.guild_map().contains_key(b.category_map()[c].guild_id)
                &&& b.guild_map()[b.category_map()[c].guild_id]
                    .category_channel_ids@.contains(c)
            } by {
                assert(a.category_map().contains_key(c));
            }
        }
        assert(b.cat_voices_wf()) by {
            assert forall|c: u64, v: u64|
                b.category_map().contains_key(c)
                    && #[trigger] b.category_map()[c].voice_channel_ids@.contains(v) implies {
                &&& b.voice_map().contains_key(v)
                &&& b.voice_map()[v].parent_id == c
            } by {
                assert(a.category_map().contains_key(c));
                assert(a.category_map()[c].voice_channel_ids@.contains(v));
            }
            assert forall|v: u64| #[trigger] b.voice_map().contains_key(v) implies {
                &&& b.voice_map()[v].id == v
                &&& b.voice_map()[v].connected_user_ids@.no_duplicates()
                &&& b.category_map().contains_key(b.voice_map()[v].parent_id)
                &&& b.category_map()[b.voice_map()[v].parent_id]
                    .voice_channel_ids@.contains(v)
            } by {
                assert(a.voice_map().contains_key(v));
            }
        }
        assert(b.joins_wf()) by {
            assert forall|j: u64| #[trigger] b.join_map().contains_key(j) implies {
                let c = b.join_map()[j];
                &&& b.category_map().contains_key(c)
                &&& b.category_map()[c].join_channel_id == Some(j)
                &&& !b.voice_map().contains_key(j)
            } by {
                assert(a.join_map().contains_key(j));
            }
            assert forall|c: u64|
                #[trigger] b.category_map().contains_key(c)
                    && b.category_map()[c].join_channel_id is Some implies {
                let j = b.category_map()[c].join_channel_id->0;
                &&& b.join_map().contains_key(j)
                &&& b.join_map()[j] == c
            } by {
                assert(a.category_map().contains_key(c));
            }
        }
    }

    /// Law: ownership is exclusive. However claims, transfers and clears
    /// interleave, a well-formed cache holds at most one ownership entry
    /// per guild and user: two channels of one guild owned by the same
    /// user are the same channel.
    pub proof fn lemma_owner_unique(self, c1: u64, c2: u64)
        requires
            self.wf(),
            self.voice_map().contains_key(c1),
            self.voice_map().contains_key(c2),
            self.voice_map()[c1].guild_id == self.voice_map()[c2].guild_id,
            self.voice_map()[c1].owner_id is Some,
            self.voice_map()[c1].owner_id == self.voice_map()[c2].owner_id,
        ensures
            c1 == c2,
    {
        assert(self.owner_at(
            self.voice_map()[c1].guild_id,
            self.voice_map()[c1].owner_id->0,
        ) == Some(c1));
        assert(self.owner_at(
            self.voice_map()[c2].guild_id,
            self.voice_map()[c2].owner_id->0,
        ) == Some(c2));
    }

    /// An empty cache.
    pub fn new() -> (r: Self)
        ensures
            r.wf(),
            r.guild_map() == Map::<u64, CachedGuild>::empty(),
            r.category_map() == Map::<u64, CachedCategoryChannel>::empty(),
            r.voice_map() == Map::<u64, CachedVoiceChannel>::empty(),
            r.join_map() == Map::<u64, u64>::empty(),
            r.unavailable_set() == Set::<u64>::empty(),
            forall|g: u64, u: u64| #[trigger] r.presence_at(g, u) is None,
            forall|g: u64, u: u64| #[trigger] r.owner_at(g, u) is None,
    {
        Self {
            category_channels: HashMap::new(),
            guilds: HashMap::new(),
            join_channels: HashMap::new(),
            unavailable_guilds: HashSet::new(),
            voice_channel_owners: HashMap::new(),
            voice_channels: HashMap::new(),
            voice_states: HashMap::new(),
        }
    }

    /// Marks a guild as temporarily unreachable; distinct from deletion.
    pub fn insert_unavailable_guild(&mut self, id: u64)
        requires
            old(self).wf(),
        ensures
            final(self).wf(),
            final(self).unavailable_set() == old(self).unavailable_set().insert(id),
            final(self).guild_map() == old(self).guild_map(),
            final(self).category_map() == old(self).category_map(),
            final(self).voice_map() == old(self).voice_map(),
            final(self).join_map() == old(self).join_map(),
            forall|g: u64, u: u64|
                #[trigger] final(self).presence_at(g, u) == old(self).presence_at(g, u),
            forall|g: u64, u: u64|
                #[trigger] final(self).owner_at(g, u) == old(self).owner_at(g, u),
    {
        self.unavailable_guilds.insert(id);
        proof {
            Self::lemma_wf_same_maps(*old(self), *self);
        }
    }

    /// Whether a guild is currently marked unreachable.
    pub fn is_guild_unavailable(&self, id: u64) -> (r: bool)
        ensures
            r == self.unavailable_set().contains(id),
    {
        self.unavailable_guilds.contains(&id)
    }

    /// Looks a guild up by id.
    pub fn guild(&self, guild_id: u64) -> (r: Option<&CachedGuild>)
        ensures
            match r {
                Some(g) => self.guild_map().contains_key(guild_id)
                    && *g == self.guild_map()[guild_id],
                None => !self.guild_map().contains_key(guild_id),
            },
    {
        self.guilds.get(&guild_id)
    }

    /// Looks a category channel up by id.
    pub fn category_channel(&self, channel_id: u64) -> (r: Option<&CachedCategoryChannel>)
        ensures
            match r {
                Some(c) => self.category_map().contains_key(channel_id)
                    && *c == self.category_map()[channel_id],
                None => !self.category_map().contains_key(channel_id),
            },
    {
        self.category_channels.get(&channel_id)
    }

    /// Looks a voice channel up by id.
    pub fn voice_channel(&self, channel_id: u64) -> (r: Option<&CachedVoiceChannel>)
        ensures
            match r {
                Some(c) => self.voice_map().contains_key(channel_id)
                    && *c == self.voice_map()[channel_id],
                None => !self.voice_map().contains_key(channel_id),
            },
    {
        self.voice_channels.get(&channel_id)
    }

    /// Resolves the category whose trigger ("join") channel is `join_channel_id`.
    pub fn category_by_join(&self, join_channel_id: u64) -> (r: Option<&CachedCategoryChannel>)
        requires
            self.wf(),
        ensures
            match r {
                Some(c) => self.join_map().contains_key(join_channel_id)
                    && self.category_map().contains_key(self.join_map()[join_channel_id])
                    && *c == self.category_map()[self.join_map()[join_channel_id]]
                    && c.join_channel_id == Some(join_channel_id),
                None => !self.join_map().contains_key(join_channel_id),
            },
    {
        match self.join_channels.get(&join_channel_id) {
            Some(category_id) => self.category_channels.get(category_id),
            None => None,
        }
    }

    /// The voice channel a user currently occupies in a guild.
    pub fn voice_state(&self, guild_id: u64, user_id: u64) -> (r: Option<u64>)
        ensures
            r == self.presence_at(guild_id, user_id),
    {
        match self.voice_states.get(&pack_key(guild_id, user_id)) {
            Some(channel_id) => Some(*channel_id),
            None => None,
        }
    }

    /// The voice channel a user currently owns in a guild.
    pub fn voice_channel_owner(&self, guild_id: u64, user_id: u64) -> (r: Option<u64>)
        ensures
            r == self.owner_at(guild_id, user_id),
    {
        match self.voice_channel_owners.get(&pack_key(guild_id, user_id)) {
            Some(channel_id) => Some(*channel_id),
            None => None,
        }
    }

    /// Records a guild that became available, with its settings read from
    /// the durable store. A guild that is already cached keeps its state:
    /// the insert is a stale event then. Either way the guild is no longer
    /// marked unreachable.
    pub fn insert_guild(&mut self, id: u64, bot_role_id: u64, permanence: bool, privacy: Privacy)
        requires
            old(self).wf(),
        ensures
            final(self).wf(),
            final(self).unavailable_set() == old(self).unavailable_set().remove(id),
            final(self).category_map() == old(self).category_map(),
            final(self).voice_map() == old(self).voice_map(),
            final(self).join_map() == old(self).join_map(),
            Self::same_indices(*old(self), *final(self)),
            old(self).guild_map().contains_key(id)
                ==> final(self).guild_map() == old(self).guild_map(),
            !old(self).guild_map().contains_key(id) ==> {
                &&& final(self).guild_map()
                    =~= old(self).guild_map().insert(id, final(self).guild_map()[id])
                &&& final(self).guild_map()[id].bot_role_id == bot_role_id
                &&& final(self).guild_map()[id].id == id
                &&& final(self).guild_map()[id].permanence == permanence
                &&& final(self).guild_map()[id].privacy == privacy
                &&& final(self).guild_map()[id].category_channel_ids@ == Seq::<u64>::empty()
            },
    {
        self.unavailable_guilds.remove(&id);
        if self.guilds.contains_key(&id) {
            proof {
                Self::lemma_wf_same_maps(*old(self), *self);
            }
            return;
        }
        self.guilds.insert(
            id,
            CachedGuild {
                bot_role_id,
                category_channel_ids: Vec::new(),
                id,
                permanence,
                privacy,
            },
        );
        proof {
            let a = *old(self);
            let b = *self;
            assert forall|g: u64, u: u64|
                #[trigger] b.presence_at(g, u) == a.presence_at(g, u) by {}
            assert forall|g: u64, u: u64|
                #[trigger] b.owner_at(g, u) == a.owner_at(g, u) by {}
            assert(b.guild_cats_wf()) by {
                assert forall|g: u64| #[trigger] b.guild_map().contains_key(g) implies {
                    &&& b.guild_map()[g].id == g
                    &&& b.guild_map()[g].category_channel_ids@.no_duplicates()
                } by {
                    if g != id {
                        assert(a.guild_map().contains_key(g));
                    }
                }
                assert forall|g: u64, c: u64|
                    b.guild_map().contains_key(g)
                        && #[trigger] b.guild_map()[g].category_channel_ids@.contains(c)
                    implies {
                    &&& b.category_map().contains_key(c)
                    &&& b.category_map()[c].guild_id == g
                } by {
                    assert(g != id);
                    assert(a.guild_map()[g].category_channel_ids@.contains(c));
                }
                assert forall|c: u64| #[trigger] b.category_map().contains_key(c) implies {
                    &&& b.category_map()[c].id == c
                    &&& b.guild_map().contains_key(b.category_map()[c].guild_id)
                    &&& b.guild_map()[b.category_map()[c].guild_id]
                        .category_channel_ids@.contains(c)
                } by {
                    assert(a.category_map().contains_key(c));
                    assert(a.guild_map().contains_key(a.category_map()[c].guild_id));
                }
            }
        }
    }

    /// Sets a guild's permanence flag; a miss mutates nothing.
    pub fn update_permanence(&mut self, guild_id: u64, permanence: bool)
        requires
            old(self).wf(),
        ensures
            final(self).wf(),
            !old(self).guild_map().contains_key(guild_id)
                ==> Self::same_state(*old(self), *final(self)),
            old(self).guild_map().contains_key(guild_id) ==> {
                &&& final(self).guild_map() =~= old(self).guild_map().insert(
                    guild_id,
                    (CachedGuild { permanence, ..old(self).guild_map()[guild_id] }),
                )
                &&& final(self).category_map() == old(self).category_map()
                &&& final(self).voice_map() == old(self).voice_map()
                &&& final(self).join_map() == old(self).join_map()
                &&& final(self).unavailable_set() == old(self).unavailable_set()
                &&& Self::same_indices(*old(self), *final(self))
            },
    {
        match self.guilds.remove(&guild_id) {
            Some(g) => {
                self.guilds.insert(guild_id, CachedGuild { permanence, ..g });
                proof {
                    Self::lemma_wf_guild_value(*old(self), *self, guild_id);
                }
            },
            None => {
                proof {
                    assert(self.guilds@ =~= old(self).guilds@);
                    Self::lemma_wf_same_maps(*old(self), *self);
                }
            },
        }
    }

    /// Sets a guild's default privacy mode; a miss mutates nothing.
    pub fn update_privacy(&mut self, guild_id: u64, privacy: Privacy)
        requires
            old(self).wf(),
        ensures
            final(self).wf(),
            !old(self).guild_map().contains_key(guild_id)
                ==> Self::same_state(*old(self), *final(self)),
            old(self).guild_map().contains_key(guild_id) ==> {
                &&& final(self).guild_map() =~= old(self).guild_map().insert(
                    guild_id,
                    (CachedGuild { privacy, ..old(self).guild_map()[guild_id] }),
                )
                &&& final(self).category_map() == old(self).category_map()
                &&& final(self).voice_map() == old(self).voice_map()
                &&& final(self).join_map() == old(self).join_map()
                &&& final(self).unavailable_set() == old(self).unavailable_set()
                &&& Self::same_indices(*old(self), *final(self))
            },
    {
        match self.guilds.remove(&guild_id) {
            Some(g) => {
                self.guilds.insert(guild_id, CachedGuild { privacy, ..g });
                proof {
                    Self::lemma_wf_guild_value(*old(self), *self, guild_id);
                }
            },
            None => {
                proof {
                    assert(self.guilds@ =~= old(self).guilds@);
                    Self::lemma_wf_same_maps(*old(self), *self);
                }
            },
        }
    }

    /// Records or clears a voice channel's panel message; a miss mutates
    /// nothing.
    pub fn update_panel_message(&mut self, channel_id: u64, panel_message_id: Option<u64>)
        requires
            old(self).wf(),
        ensures
            final(self).wf(),
            !old(self).voice_map().contains_key(channel_id)
                ==> Self::same_state(*old(self), *final(self)),
            old(self).voice_map().contains_key(channel_id) ==> {
                &&& final(self).voice_map() =~= old(self).voice_map().insert(
                    channel_id,
                    (CachedVoiceChannel {
                        panel_message_id,
                        ..old(self).voice_map()[channel_id]
                    }),
                )
                &&& final(self).guild_map() == old(self).guild_map()
                &&& final(self).category_map() == old(self).category_map()
                &&& final(self).join_map() == old(self).join_map()
                &&& final(self).unavailable_set() == old(self).unavailable_set()
                &&& Self::same_indices(*old(self), *final(self))
            },
    {
        match self.voice_channels.remove(&channel_id) {
            Some(c) => {
                self.voice_channels.insert(
                    channel_id,
                    CachedVoiceChannel { panel_message_id, ..c },
                );
                proof {
                    Self::lemma_wf_voice_value(*old(self), *self, channel_id);
                }
            },
            None => {
                proof {
                    assert(self.voice_channels@ =~= old(self).voice_channels@);
                    Self::lemma_wf_same_maps(*old(self), *self);
                }
            },
        }
    }

    /// Replaces a voice channel's overwrite list, as a channel-update event
    /// reports it; a miss mutates nothing.
    pub fn update_voice_overwrites(&mut self, channel_id: u64, permission_overwrites: Vec<Overwrite>)
        requires
            old(self).wf(),
        ensures
            final(self).wf(),
            !old(self).voice_map().contains_key(channel_id)
                ==> Self::same_state(*old(self), *final(self)),
            old(self).voice_map().contains_key(channel_id) ==> {
                &&& final(self).voice_map() =~= old(self).voice_map().insert(
                    channel_id,
                    (CachedVoiceChannel {
                        permission_overwrites,
                        ..old(self).voice_map()[channel_id]
                    }),
                )
                &&& final(self).guild_map() == old(self).guild_map()
                &&& final(self).category_map() == old(self).category_map()
                &&& final(self).join_map() == old(self).join_map()
                &&& final(self).unavailable_set() == old(self).unavailable_set()
                &&& Self::same_indices(*old(self), *final(self))
            },
    {
        match self.voice_channels.remove(&channel_id) {
            Some(c) => {
                self.voice_channels.insert(
                    channel_id,
                    CachedVoiceChannel { permission_overwrites, ..c },
                );
                proof {
                    Self::lemma_wf_voice_value(*old(self), *self, channel_id);
                }
            },
            None => {
                proof {
                    assert(self.voice_channels@ =~= old(self).voice_channels@);
                    Self::lemma_wf_same_maps(*old(self), *self);
                }
            },
        }
    }

    /// Forgets where a user is in a guild: the presence entry goes, and so
    /// does the user's membership in the cached channel it pointed to.
    pub fn remove_voice_state(&mut self, guild_id: u64, user_id: u64)
        requires
            old(self).wf(),
        ensures
            final(self).wf(),
            final(self).guild_map() == old(self).guild_map(),
            final(self).category_map() == old(self).category_map(),
            final(self).join_map() == old(self).join_map(),
            final(self).unavailable_set() == old(self).unavailable_set(),
            forall|g: u64, u: u64|
                #[trigger] final(self).owner_at(g, u) == old(self).owner_at(g, u),
            forall|g: u64, u: u64|
                #[trigger] final(self).presence_at(g, u) == if g == guild_id && u == user_id {
                    None::<u64>
                } else {
                    old(self).presence_at(g, u)
                },
            final(self).voice_map().dom() == old(self).voice_map().dom(),
            forall|v: u64| #[trigger] final(self).voice_map().contains_key(v) ==> {
                let a = old(self).voice_map()[v];
                let b = final(self).voice_map()[v];
                &&& b.guild_id == a.guild_id
                &&& b.id == a.id
                &&& b.owner_id == a.owner_id
                &&& b.panel_message_id == a.panel_message_id
                &&& b.parent_id == a.parent_id
                &&& b.permission_overwrites@ == a.permission_overwrites@
                &&& forall|u: u64|
                    #[trigger] b.connected_user_ids@.contains(u) == (
                        a.connected_user_ids@.contains(u)
                        && !(a.guild_id == guild_id && u == user_id))
            },
    {
        let key = pack_key(guild_id, user_id);
        let channel_id = match self.voice_states.remove(&key) {
            None => {
                proof {
                    assert(self.voice_states@ =~= old(self).voice_states@);
                    Self::lemma_wf_same_maps(*old(self), *self);
                    assert forall|g: u64, u: u64|
                        #[trigger] self.presence_at(g, u) == if g == guild_id && u == user_id {
                            None::<u64>
                        } else {
                            old(self).presence_at(g, u)
                        } by {
                        if g == guild_id && u == user_id {
                            assert(!old(self).voice_states@.contains_key(pk(g, u)));
                        }
                    }
                    assert(self.voice_map().dom() =~= old(self).voice_map().dom());
                }
                return;
            },
            Some(channel_id) => channel_id,
        };
        proof {
            assert(self.voice_states@ =~= old(self).voice_states@.remove(pk(guild_id, user_id)));
            assert forall|g: u64, u: u64|
                #[trigger] self.presence_at(g, u) == if g == guild_id && u == user_id {
                    None::<u64>
                } else {
                    old(self).presence_at(g, u)
                } by {
                if !(g == guild_id && u == user_id) {
                    if pk(g, u) == pk(guild_id, user_id) {
                        lemma_pk_injective(g, u, guild_id, user_id);
                    }
                }
            }
        }
        match self.voice_channels.remove(&channel_id) {
            None => {
                proof {
                    assert(old(self).presence_at(guild_id, user_id) == Some(channel_id));
                    assert(old(self).voice_map().contains_key(channel_id));
                    assert(false);
                }
            },
            Some(mut vc) => {
                proof {
                    assert(old(self).presence_at(guild_id, user_id) == Some(channel_id));
                    assert(old(self).voice_map()[channel_id].guild_id == guild_id);
                    assert(old(self).voice_map()[channel_id]
                        .connected_user_ids@.contains(user_id));
                }
                vec_remove_value(&mut vc.connected_user_ids, user_id);
                self.voice_channels.insert(channel_id, vc);
                proof {
                    let a = *old(self);
                    let b = *self;
                    assert(b.voice_channels@ =~= a.voice_channels@.insert(
                        channel_id,
                        b.voice_channels@[channel_id],
                    ));
                    assert(b.voice_map().dom() =~= a.voice_map().dom());
                    assert forall|g: u64, u: u64|
                        #[trigger] b.owner_at(g, u) == a.owner_at(g, u) by {}
                    assert(b.guild_cats_wf()) by {
                        assert(b.guild_map() == a.guild_map());
                        assert(b.category_map() == a.category_map());
                    }
                    assert(b.cat_voices_wf()) by {
                        assert forall|c: u64, v: u64|
                            b.category_map().contains_key(c)
                                && #[trigger] b.category_map()[c].voice_channel_ids@.contains(v)
                            implies {
                            &&& b.voice_map().contains_key(v)
                            &&& b.voice_map()[v].parent_id == c
                        } by {
                            assert(a.category_map()[c].voice_channel_ids@.contains(v));
                        }
                        assert forall|v: u64|
                            #[trigger] b.voice_map().contains_key(v) implies {
                            &&& b.voice_map()[v].id == v
                            &&& b.voice_map()[v].connected_user_ids@.no_duplicates()
                            &&& b.category_map().contains_key(b.voice_map()[v].parent_id)
                            &&& b.category_map()[b.voice_map()[v].parent_id]
                                .voice_channel_ids@.contains(v)
                        } by {
                            assert(a.voice_map().contains_key(v));
                        }
                    }
                    assert(b.presence_wf()) by {
                        assert forall|g: u64, u: u64|
                            #[trigger] b.presence_at(g, u) is Some implies {
                            let c = b.presence_at(g, u)->0;
                            &&& b.voice_map().contains_key(c)
                            &&& b.voice_map()[c].guild_id == g
                            &&& b.voice_map()[c].connected_user_ids@.contains(u)
                        } by {
                            assert(!(g == guild_id && u == user_id));
                            assert(a.presence_at(g, u) == b.presence_at(g, u));
                            let c = b.presence_at(g, u)->0;
                            assert(a.voice_map().contains_key(c));
                            assert(a.voice_map()[c].connected_user_ids@.contains(u));
                            if c == channel_id {
                                assert(a.voice_map()[c].guild_id == guild_id);
                                assert(u != user_id);
                            }
                        }
                        assert forall|v: u64, u: u64|
                            b.voice_map().contains_key(v)
                                && #[trigger] b.voice_map()[v].connected_user_ids@.contains(u)
                            implies b.presence_at(b.voice_map()[v].guild_id, u) == Some(v) by {
                            assert(a.voice_map().contains_key(v));
                            if v == channel_id {
                                assert(a.voice_map()[v].connected_user_ids@.contains(u));
                                assert(u != user_id);
                            } else {
                                assert(a.voice_map()[v].connected_user_ids@.contains(u));
                            }
                            assert(a.presence_at(a.voice_map()[v].guild_id, u) == Some(v));
                            if a.voice_map()[v].guild_id == guild_id && u == user_id {
                                assert(v == channel_id);
                            }
                        }
                    }
                    assert(b.owners_wf()) by {
                        assert forall|g: u64, u: u64|
                            #[trigger] b.owner_at(g, u) is Some implies {
                            let c = b.owner_at(g, u)->0;
                            &&& b.voice_map().contains_key(c)
                            &&& b.voice_map()[c].guild_id == g
                            &&& b.voice_map()[c].owner_id == Some(u)
                        } by {
                            assert(a.owner_at(g, u) is Some);
                        }
                        assert forall|v: u64|
                            #[trigger] b.voice_map().contains_key(v)
                                && b.voice_map()[v].owner_id is Some
                            implies b.owner_at(
                                b.voice_map()[v].guild_id,
                                b.voice_map()[v].owner_id->0,
                            ) == Some(v) by {
                            assert(a.voice_map().contains_key(v));
                        }
                    }
                    assert(b.joins_wf()) by {
                        assert forall|j: u64| #[trigger] b.join_map().contains_key(j) implies {
                            let c = b.join_map()[j];
                            &&& b.category_map().contains_key(c)
                            &&& b.category_map()[c].join_channel_id == Some(j)
                            &&& !b.voice_map().contains_key(j)
                        } by {
                            assert(a.join_map().contains_key(j));
                        }
                    }
                }
            },
        }
    }

    /// Records that a user is now in `channel_id` within a guild. The
    /// user's previous presence in the guild is dropped, with its
    /// membership. When the channel is cached under this guild it gains
    /// the user and the presence entry points to it; a channel the cache
    /// does not know (or knows under another guild) gets no entry, since
    /// no lifecycle rule ever acts on such a channel.
    pub fn insert_voice_state(&mut self, guild_id: u64, channel_id: u64, user_id: u64)
        requires
            old(self).wf(),
        ensures
            final(self).wf(),
            final(self).guild_map() == old(self).guild_map(),
            final(self).category_map() == old(self).category_map(),
            final(self).join_map() == old(self).join_map(),
            final(self).unavailable_set() == old(self).unavailable_set(),
            forall|g: u64, u: u64|
                #[trigger] final(self).owner_at(g, u) == old(self).owner_at(g, u),
            forall|g: u64, u: u64|
                #[trigger] final(self).presence_at(g, u) == if g == guild_id && u == user_id {
                    if old(self).voice_map().contains_key(channel_id) && old(
                        self,
                    ).voice_map()[channel_id].guild_id == guild_id {
                        Some(channel_id)
                    } else {
                        None::<u64>
                    }
                } else {
                    old(self).presence_at(g, u)
                },
            final(self).voice_map().dom() == old(self).voice_map().dom(),
            forall|v: u64| #[trigger] final(self).voice_map().contains_key(v) ==> {
                let a = old(self).voice_map()[v];
                let b = final(self).voice_map()[v];
                &&& b.guild_id == a.guild_id
                &&& b.id == a.id
                &&& b.owner_id == a.owner_id
                &&& b.panel_message_id == a.panel_message_id
                &&& b.parent_id == a.parent_id
                &&& b.permission_overwrites@ == a.permission_overwrites@
                &&& forall|u: u64|
                    #[trigger] b.connected_user_ids@.contains(u) == ((
                        a.connected_user_ids@.contains(u)
                        && !(a.guild_id == guild_id && u == user_id))
                        || (v == channel_id && a.guild_id == guild_id && u == user_id))
            },
    {
        self.remove_voice_state(guild_id, user_id);
        let ghost m = *self;
        let mut vc = match self.voice_channels.remove(&channel_id) {
            None => {
                proof {
                    assert(self.voice_channels@ =~= m.voice_channels@);
                    Self::lemma_wf_same_maps(m, *self);
                    assert(self.voice_map().dom() =~= old(self).voice_map().dom());
                    assert forall|g: u64, u: u64|
                        #[trigger] self.presence_at(g, u) == m.presence_at(g, u) by {}
                    assert forall|g: u64, u: u64|
                        #[trigger] self.owner_at(g, u) == m.owner_at(g, u) by {}
                    assert(!old(self).voice_map().contains_key(channel_id));
                }
                return;
            },
            Some(vc) => vc,
        };
        if vc.guild_id != guild_id {
            self.voice_channels.insert(channel_id, vc);
            proof {
                assert(self.voice_channels@ =~= m.voice_channels@);
                Self::lemma_wf_same_maps(m, *self);
                assert(self.voice_map().dom() =~= old(self).voice_map().dom());
                assert forall|g: u64, u: u64|
                    #[trigger] self.presence_at(g, u) == m.presence_at(g, u) by {}
                assert forall|g: u64, u: u64|
                    #[trigger] self.owner_at(g, u) == m.owner_at(g, u) by {}
                assert(old(self).voice_map()[channel_id].guild_id != guild_id);
            }
            return;
        }
        proof {
            if vc.connected_user_ids@.contains(user_id) {
                assert(m.voice_map()[channel_id].connected_user_ids@.contains(user_id));
                assert(m.presence_at(guild_id, user_id) == Some(channel_id));
                assert(false);
            }
        }
        vc.connected_user_ids.push(user_id);
        self.voice_channels.insert(channel_id, vc);
        self.voice_states.insert(pack_key(guild_id, user_id), channel_id);
        proof {
            let a = *old(self);
            let b = *self;
            assert(b.voice_channels@ =~= m.voice_channels@.insert(
                channel_id,
                b.voice_channels@[channel_id],
            ));
            assert(b.voice_map().dom() =~= a.voice_map().dom());
            assert forall|g: u64, u: u64|
                #[trigger] b.owner_at(g, u) == a.owner_at(g, u) by {
                assert(b.owner_at(g, u) == m.owner_at(g, u));
            }
            assert(b.voice_map()[channel_id].connected_user_ids@
                == m.voice_map()[channel_id].connected_user_ids@.push(user_id));
            assert forall|u: u64|
                #[trigger] b.voice_map()[channel_id].connected_user_ids@.contains(u) == (
                    m.voice_map()[channel_id].connected_user_ids@.contains(u) || u
                        == user_id) by {
                let s = m.voice_map()[channel_id].connected_user_ids@;
                if b.voice_map()[channel_id].connected_user_ids@.contains(u) {
                    let j = choose|j: int|
                        0 <= j < s.push(user_id).len() && s.push(user_id)[j] == u;
                    if j < s.len() {
                        assert(s[j] == u);
                    }
                }
                if s.contains(u) {
                    let j = choose|j: int| 0 <= j < s.len() && s[j] == u;
                    assert(s.push(user_id)[j] == u);
                }
                if u == user_id {
                    assert(s.push(user_id)[s.len() as int] == u);
                }
            }
            assert forall|g: u64, u: u64|
                #[trigger] b.presence_at(g, u) == if g == guild_id && u == user_id {
                    Some(channel_id)
                } else {
                    m.presence_at(g, u)
                } by {
                if pk(g, u) == pk(guild_id, user_id) {
                    lemma_pk_injective(g, u, guild_id, user_id);
                }
            }
            assert(b.guild_cats_wf()) by {
                assert(b.guild_map() == a.guild_map());
                assert(b.category_map() == a.category_map());
            }
            assert(b.cat_voices_wf()) by {
                assert forall|c: u64, v: u64|
                    b.category_map().contains_key(c)
                        && #[trigger] b.category_map()[c].voice_channel_ids@.contains(v)
                    implies {
                    &&& b.voice_map().contains_key(v)
                    &&& b.voice_map()[v].parent_id == c
                } by {
                    assert(m.category_map()[c].voice_channel_ids@.contains(v));
                }
                assert forall|v: u64| #[trigger] b.voice_map().contains_key(v) implies {
                    &&& b.voice_map()[v].id == v
                    &&& b.voice_map()[v].connected_user_ids@.no_duplicates()
                    &&& b.category_map().contains_key(b.voice_map()[v].parent_id)
                    &&& b.category_map()[b.voice_map()[v].parent_id]
                        .voice_channel_ids@.contains(v)
                } by {
                    assert(m.voice_map().contains_key(v));
                    if v == channel_id {
                        assert(!m.voice_map()[channel_id]
                            .connected_user_ids@.contains(user_id));
                        assert(m.voice_map()[channel_id]
                            .connected_user_ids@.push(user_id).no_duplicates());
                    }
                }
            }
            assert(b.presence_wf()) by {
                assert forall|g: u64, u: u64|
                    #[trigger] b.presence_at(g, u) is Some implies {
                    let c = b.presence_at(g, u)->0;
                    &&& b.voice_map().contains_key(c)
                    &&& b.voice_map()[c].guild_id == g
                    &&& b.voice_map()[c].connected_user_ids@.contains(u)
                } by {
                    let c = b.presence_at(g, u)->0;
                    if g == guild_id && u == user_id {
                        assert(c == channel_id);
                    } else {
                        assert(m.presence_at(g, u) == Some(c));
                        assert(m.voice_map().contains_key(c));
                        assert(m.voice_map()[c].guild_id == g);
                        assert(m.voice_map()[c].connected_user_ids@.contains(u));
                    }
                }
                assert forall|v: u64, u: u64|
                    b.voice_map().contains_key(v)
                        && #[trigger] b.voice_map()[v].connected_user_ids@.contains(u)
                    implies b.presence_at(b.voice_map()[v].guild_id, u) == Some(v) by {
                    if v == channel_id && u == user_id {
                        assert(b.presence_at(guild_id, user_id) == Some(channel_id));
                    } else {
                        assert(m.voice_map()[v].connected_user_ids@.contains(u));
                        assert(m.presence_at(m.voice_map()[v].guild_id, u) == Some(v));
                        if m.voice_map()[v].guild_id == guild_id && u == user_id {
                            assert(m.presence_at(guild_id, user_id) == None::<u64>);
                            assert(false);
                        }
                    }
                }
            }
            assert(b.owners_wf()) by {
                assert forall|g: u64, u: u64| #[trigger] b.owner_at(g, u) is Some implies {
                    let c = b.owner_at(g, u)->0;
                    &&& b.voice_map().contains_key(c)
                    &&& b.voice_map()[c].guild_id == g
                    &&& b.voice_map()[c].owner_id == Some(u)
                } by {
                    assert(m.owner_at(g, u) == b.owner_at(g, u));
                    assert(m.owner_at(g, u) is Some);
                }
                assert forall|v: u64|
                    #[trigger] b.voice_map().contains_key(v)
                        && b.voice_map()[v].owner_id is Some
                    implies b.owner_at(
                        b.voice_map()[v].guild_id,
                        b.voice_map()[v].owner_id->0,
                    ) == Some(v) by {
                    assert(m.voice_map().contains_key(v));
                    assert(m.owner_at(
                        m.voice_map()[v].guild_id,
                        m.voice_map()[v].owner_id->0,
                    ) == Some(v));
                }
            }
            assert(b.joins_wf()) by {
                assert forall|j: u64| #[trigger] b.join_map().contains_key(j) implies {
                    let c = b.join_map()[j];
                    &&& b.category_map().contains_key(c)
                    &&& b.category_map()[c].join_channel_id == Some(j)
                    &&& !b.voice_map().contains_key(j)
                } by {
                    assert(m.join_map().contains_key(j));
                }
            }
        }
    }

    /// Sets or clears a voice channel's owner, atomically retargeting the
    /// ownership index: the previous owner's entry is dropped, the new
    /// owner's entry points here, and a channel the new owner owned before
    /// loses its owner. A miss mutates nothing.
    pub fn update_voice_channel_owner(&mut self, channel_id: u64, owner_id: Option<u64>)
        requires
            old(self).wf(),
        ensures
            final(self).wf(),
            !old(self).voice_map().contains_key(channel_id)
                ==> Self::same_state(*old(self), *final(self)),
            old(self).voice_map().contains_key(channel_id) ==> {
                let g = old(self).voice_map()[channel_id].guild_id;
                let prev = old(self).voice_map()[channel_id].owner_id;
                &&& final(self).guild_map() == old(self).guild_map()
                &&& final(self).category_map() == old(self).category_map()
                &&& final(self).join_map() == old(self).join_map()
                &&& final(self).unavailable_set() == old(self).unavailable_set()
                &&& forall|g2: u64, u2: u64|
                    #[trigger] final(self).presence_at(g2, u2) == old(self).presence_at(g2, u2)
                &&& forall|g2: u64, u2: u64|
                    #[trigger] final(self).owner_at(g2, u2) == if g2 == g && owner_id
                        == Some(u2) {
                        Some(channel_id)
                    } else if g2 == g && prev == Some(u2) {
                        None::<u64>
                    } else {
                        old(self).owner_at(g2, u2)
                    }
                &&& final(self).voice_map().dom() == old(self).voice_map().dom()
                &&& forall|v: u64| #[trigger] final(self).voice_map().contains_key(v) ==> {
                    let a = old(self).voice_map()[v];
                    let b = final(self).voice_map()[v];
                    &&& b.guild_id == a.guild_id
                    &&& b.id == a.id
                    &&& b.panel_message_id == a.panel_message_id
                    &&& b.parent_id == a.parent_id
                    &&& b.permission_overwrites@ == a.permission_overwrites@
                    &&& b.connected_user_ids@ == a.connected_user_ids@
                    &&& b.owner_id == if v == channel_id {
                        owner_id
                    } else if a.guild_id == g && owner_id is Some && a.owner_id == owner_id {
                        None::<u64>
                    } else {
                        a.owner_id
                    }
                }
            },
    {
        let mut vc = match self.voice_channels.remove(&channel_id) {
            None => {
                proof {
                    assert(self.voice_channels@ =~= old(self).voice_channels@);
                    Self::lemma_wf_same_maps(*old(self), *self);
                }
                return;
            },
            Some(vc) => vc,
        };
        let guild_id = vc.guild_id;
        if let Some(cur) = vc.owner_id {
            self.voice_channel_owners.remove(&pack_key(guild_id, cur));
        }
        if let Some(new_owner) = owner_id {
            let k = pack_key(guild_id, new_owner);
            match self.voice_channel_owners.remove(&k) {
                Some(other_id) => {
                    proof {
                        assert(old(self).owner_at(guild_id, new_owner) == Some(other_id));
                        assert(old(self).voice_map()[other_id].owner_id == Some(new_owner));
                        if other_id == channel_id {
                            assert(vc.owner_id == Some(new_owner));
                            assert(false);
                        }
                    }
                    match self.voice_channels.remove(&other_id) {
                        Some(other) => {
                            self.voice_channels.insert(
                                other_id,
                                CachedVoiceChannel { owner_id: None, ..other },
                            );
                        },
                        None => {
                            proof {
                                assert(false);
                            }
                        },
                    }
                },
                None => {},
            }
            self.voice_channel_owners.insert(k, channel_id);
        }
        self.voice_channels.insert(channel_id, CachedVoiceChannel { owner_id, ..vc });
        proof {
            let a = *old(self);
            let b = *self;
            let g = a.voice_map()[channel_id].guild_id;
            let prev = a.voice_map()[channel_id].owner_id;
            let retarget: Option<u64> = if owner_id is Some && a.owner_at(g, owner_id->0)
                is Some && a.owner_at(g, owner_id->0) != Some(channel_id)
                && prev != owner_id {
                a.owner_at(g, owner_id->0)
            } else {
                None
            };
            assert(b.voice_map().dom() =~= a.voice_map().dom()) by {
                if retarget is Some {
                    assert(a.voice_map().contains_key(retarget->0));
                }
            }
            assert forall|g2: u64, u2: u64|
                #[trigger] b.presence_at(g2, u2) == a.presence_at(g2, u2) by {}
            assert forall|g2: u64, u2: u64|
                #[trigger] b.owner_at(g2, u2) == if g2 == g && owner_id == Some(u2) {
                    Some(channel_id)
                } else if g2 == g && prev == Some(u2) {
                    None::<u64>
                } else {
                    a.owner_at(g2, u2)
                } by {
                if g2 == g && owner_id == Some(u2) {
                    assert(b.voice_channel_owners@.contains_key(pk(g, u2)));
                } else if g2 == g && prev == Some(u2) {
                    if pk(g2, u2) != pk(g, prev->0) {
                        lemma_pk_injective(g2, u2, g, prev->0);
                    }
                    if owner_id is Some && pk(g2, u2) == pk(g, owner_id->0) {
                        lemma_pk_injective(g2, u2, g, owner_id->0);
                    }
                } else {
                    if prev is Some && pk(g2, u2) == pk(g, prev->0) {
                        lemma_pk_injective(g2, u2, g, prev->0);
                    }
                    if owner_id is Some && pk(g2, u2) == pk(g, owner_id->0) {
                        lemma_pk_injective(g2, u2, g, owner_id->0);
                    }
                }
            }
            assert forall|v: u64| #[trigger] b.voice_map().contains_key(v) implies {
                let av = a.voice_map()[v];
                let bv = b.voice_map()[v];
                &&& bv.guild_id == av.guild_id
                &&& bv.id == av.id
                &&& bv.panel_message_id == av.panel_message_id
                &&& bv.parent_id == av.parent_id
                &&& bv.permission_overwrites@ == av.permission_overwrites@
                &&& bv.connected_user_ids@ == av.connected_user_ids@
                &&& bv.owner_id == if v == channel_id {
                    owner_id
                } else if av.guild_id == g && owner_id is Some && av.owner_id == owner_id {
                    None::<u64>
                } else {
                    av.owner_id
                }
            } by {
                assert(a.voice_map().contains_key(v));
                if v != channel_id && a.voice_map()[v].guild_id == g && owner_id is Some
                    && a.voice_map()[v].owner_id == owner_id {
                    assert(a.owner_at(g, owner_id->0) == Some(v));
                    assert(retarget == Some(v));
                }
                if retarget == Some(v) {
                    assert(a.voice_map()[v].owner_id == owner_id);
                }
            }
            assert(b.guild_cats_wf()) by {
                assert(b.guild_map() == a.guild_map());
                assert(b.category_map() == a.category_map());
            }
            assert(b.cat_voices_wf()) by {
                assert forall|c: u64, v: u64|
                    b.category_map().contains_key(c)
                        && #[trigger] b.category_map()[c].voice_channel_ids@.contains(v)
                    implies {
                    &&& b.voice_map().contains_key(v)
                    &&& b.voice_map()[v].parent_id == c
                } by {
                    assert(a.category_map()[c].voice_channel_ids@.contains(v));
                }
                assert forall|v: u64| #[trigger] b.voice_map().contains_key(v) implies {
                    &&& b.voice_map()[v].id == v
                    &&& b.voice_map()[v].connected_user_ids@.no_duplicates()
                    &&& b.category_map().contains_key(b.voice_map()[v].parent_id)
                    &&& b.category_map()[b.voice_map()[v].parent_id]
                        .voice_channel_ids@.contains(v)
                } by {
                    assert(a.voice_map().contains_key(v));
                }
            }
            assert(b.presence_wf()) by {
                assert forall|g2: u64, u2: u64|
                    #[trigger] b.presence_at(g2, u2) is Some implies {
                    let c = b.presence_at(g2, u2)->0;
                    &&& b.voice_map().contains_key(c)
                    &&& b.voice_map()[c].guild_id == g2
                    &&& b.voice_map()[c].connected_user_ids@.contains(u2)
                } by {
                    assert(a.presence_at(g2, u2) == b.presence_at(g2, u2));
                    let c = b.presence_at(g2, u2)->0;
                    assert(a.voice_map()[c].connected_user_ids@.contains(u2));
                }
                assert forall|v: u64, u2: u64|
                    b.voice_map().contains_key(v)
                        && #[trigger] b.voice_map()[v].connected_user_ids@.contains(u2)
                    implies b.presence_at(b.voice_map()[v].guild_id, u2) == Some(v) by {
                    assert(a.voice_map().contains_key(v));
                    assert(a.voice_map()[v].connected_user_ids@.contains(u2));
                    assert(a.presence_at(a.voice_map()[v].guild_id, u2) == Some(v));
                }
            }
            assert(b.owners_wf()) by {
                assert forall|g2: u64, u2: u64| #[trigger] b.owner_at(g2, u2) is Some implies {
                    let c = b.owner_at(g2, u2)->0;
                    &&& b.voice_map().contains_key(c)
                    &&& b.voice_map()[c].guild_id == g2
                    &&& b.voice_map()[c].owner_id == Some(u2)
                } by {
                    if g2 == g && owner_id == Some(u2) {
                        assert(b.owner_at(g2, u2) == Some(channel_id));
                    } else if g2 == g && prev == Some(u2) {
                        assert(false);
                    } else {
                        let c = b.owner_at(g2, u2)->0;
                        assert(a.owner_at(g2, u2) == Some(c));
                        assert(a.voice_map()[c].owner_id == Some(u2));
                        if c == channel_id {
                            assert(prev == Some(u2) && g2 == g);
                            assert(false);
                        }
                        if retarget == Some(c) {
                            assert(a.voice_map()[c].owner_id == owner_id);
                            assert(g2 == g && owner_id == Some(u2));
                            assert(false);
                        }
                    }
                }
                assert forall|v: u64|
                    #[trigger] b.voice_map().contains_key(v)
                        && b.voice_map()[v].owner_id is Some
                    implies b.owner_at(
                        b.voice_map()[v].guild_id,
                        b.voice_map()[v].owner_id->0,
                    ) == Some(v) by {
                    assert(a.voice_map().contains_key(v));
                    if v == channel_id {
                        assert(b.owner_at(g, owner_id->0) == Some(channel_id));
                    } else {
                        assert(b.voice_map()[v].owner_id == a.voice_map()[v].owner_id);
                        let u2 = a.voice_map()[v].owner_id->0;
                        let gv = a.voice_map()[v].guild_id;
                        assert(a.owner_at(gv, u2) == Some(v));
                        if gv == g && owner_id == Some(u2) {
                            assert(retarget == Some(v));
                            assert(false);
                        }
                        if gv == g && prev == Some(u2) {
                            assert(a.owner_at(g, u2) == Some(channel_id));
                            assert(false);
                        }
                    }
                }
            }
            assert(b.joins_wf()) by {
                assert forall|j: u64| #[trigger] b.join_map().contains_key(j) implies {
                    let c = b.join_map()[j];
                    &&& b.category_map().contains_key(c)
                    &&& b.category_map()[c].join_channel_id == Some(j)
                    &&& !b.voice_map().contains_key(j)
                } by {
                    assert(a.join_map().contains_key(j));
                }
            }
        }
    }

    /// Whether a category's trigger channel can be set to `join`: the
    /// category must be cached, and a trigger must not be a cached voice
    /// channel nor another category's trigger.
    pub open spec fn join_settable(self, channel_id: u64, join: Option<u64>) -> bool {
        &&& self.category_map().contains_key(channel_id)
        &&& match join {
            None => true,
            Some(j) => !self.voice_map().contains_key(j) && (!self.join_map().contains_key(j)
                || self.join_map()[j] == channel_id),
        }
    }

    /// Sets or clears a category's trigger ("join") channel. When the id
    /// given cannot be a trigger — it is a cached voice channel, or
    /// another category's trigger — nothing is mutated.
    pub fn update_join_channel(&mut self, channel_id: u64, join_channel_id: Option<u64>)
        requires
            old(self).wf(),
        ensures
            final(self).wf(),
            !old(self).join_settable(channel_id, join_channel_id)
                ==> Self::same_state(*old(self), *final(self)),
            old(self).join_settable(channel_id, join_channel_id) ==> {
                &&& final(self).category_map() =~= old(self).category_map().insert(
                    channel_id,
                    (CachedCategoryChannel {
                        join_channel_id,
                        ..old(self).category_map()[channel_id]
                    }),
                )
                &&& final(self).guild_map() == old(self).guild_map()
                &&& final(self).voice_map() == old(self).voice_map()
                &&& final(self).unavailable_set() == old(self).unavailable_set()
                &&& Self::same_indices(*old(self), *final(self))
                &&& forall|j: u64|
                    #[trigger] final(self).join_map().contains_key(j) == ((
                        old(self).join_map().contains_key(j)
                        && old(self).category_map()[channel_id].join_channel_id != Some(j))
                        || join_channel_id == Some(j))
                &&& forall|j: u64| #[trigger] final(self).join_map().contains_key(j)
                    ==> final(self).join_map()[j] == if join_channel_id == Some(j) {
                        channel_id
                    } else {
                        old(self).join_map()[j]
                    }
            },
    {
        let cat = match self.category_channels.remove(&channel_id) {
            None => {
                proof {
                    assert(self.category_channels@ =~= old(self).category_channels@);
                    Self::lemma_wf_same_maps(*old(self), *self);
                }
                return;
            },
            Some(c) => c,
        };
        let ok = match join_channel_id {
            None => true,
            Some(j) => !self.voice_channels.contains_key(&j) && (match self
                .join_channels
                .get(&j) {
                None => true,
                Some(owner) => *owner == channel_id,
            }),
        };
        if !ok {
            self.category_channels.insert(channel_id, cat);
            proof {
                assert(self.category_channels@ =~= old(self).category_channels@);
                Self::lemma_wf_same_maps(*old(self), *self);
            }
            return;
        }
        let old_join = cat.join_channel_id;
        if let Some(old_j) = old_join {
            self.join_channels.remove(&old_j);
        }
        if let Some(j) = join_channel_id {
            self.join_channels.insert(j, channel_id);
        }
        self.category_channels.insert(
            channel_id,
            CachedCategoryChannel { join_channel_id, ..cat },
        );
        proof {
            let a = *old(self);
            let b = *self;
            assert(b.category_map() =~= a.category_map().insert(
                channel_id,
                b.category_map()[channel_id],
            ));
            assert forall|g2: u64, u2: u64|
                #[trigger] b.presence_at(g2, u2) == a.presence_at(g2, u2) by {}
            assert forall|g2: u64, u2: u64|
                #[trigger] b.owner_at(g2, u2) == a.owner_at(g2, u2) by {}
            assert forall|j: u64|
                #[trigger] b.join_map().contains_key(j) == ((a.join_map().contains_key(j)
                    && a.category_map()[channel_id].join_channel_id != Some(j))
                    || join_channel_id == Some(j)) by {
                if a.join_map().contains_key(j) && a.category_map()[channel_id].join_channel_id
                    == Some(j) {
                    assert(a.join_map()[j] == channel_id);
                }
            }
            assert(b.guild_cats_wf()) by {
                assert forall|g: u64, c: u64|
                    b.guild_map().contains_key(g)
                        && #[trigger] b.guild_map()[g].category_channel_ids@.contains(c)
                    implies {
                    &&& b.category_map().contains_key(c)
                    &&& b.category_map()[c].guild_id == g
                } by {
                    assert(a.guild_map()[g].category_channel_ids@.contains(c));
                }
                assert forall|c: u64| #[trigger] b.category_map().contains_key(c) implies {
                    &&& b.category_map()[c].id == c
                    &&& b.guild_map().contains_key(b.category_map()[c].guild_id)
                    &&& b.guild_map()[b.category_map()[c].guild_id]
                        .category_channel_ids@.contains(c)
                } by {
                    assert(a.category_map().contains_key(c));
                }
            }
            assert(b.cat_voices_wf()) by {
                assert forall|c: u64, v: u64|
                    b.category_map().contains_key(c)
                        && #[trigger] b.category_map()[c].voice_channel_ids@.contains(v)
                    implies {
                    &&& b.voice_map().contains_key(v)
                    &&& b.voice_map()[v].parent_id == c
                } by {
                    assert(a.category_map().contains_key(c));
                    assert(a.category_map()[c].voice_channel_ids@.contains(v));
                }
                assert forall|v: u64| #[trigger] b.voice_map().contains_key(v) implies {
                    &&& b.voice_map()[v].id == v
                    &&& b.voice_map()[v].connected_user_ids@.no_duplicates()
                    &&& b.category_map().contains_key(b.voice_map()[v].parent_id)
                    &&& b.category_map()[b.voice_map()[v].parent_id]
                        .voice_channel_ids@.contains(v)
                } by {
                    assert(a.voice_map().contains_key(v));
                }
            }
            assert(b.presence_wf()) by {
                assert forall|g2: u64, u2: u64|
                    #[trigger] b.presence_at(g2, u2) is Some implies {
                    let c = b.presence_at(g2, u2)->0;
                    &&& b.voice_map().contains_key(c)
                    &&& b.voice_map()[c].guild_id == g2
                    &&& b.voice_map()[c].connected_user_ids@.contains(u2)
                } by {
                    assert(a.presence_at(g2, u2) == b.presence_at(g2, u2));
                }
                assert forall|v: u64, u2: u64|
                    b.voice_map().contains_key(v)
                        && #[trigger] b.voice_map()[v].connected_user_ids@.contains(u2)
                    implies b.presence_at(b.voice_map()[v].guild_id, u2) == Some(v) by {
                    assert(a.voice_map().contains_key(v));
                    assert(a.voice_map()[v].connected_user_ids@.contains(u2));
                }
            }
            assert(b.owners_wf()) by {
                assert forall|g2: u64, u2: u64| #[trigger] b.owner_at(g2, u2) is Some implies {
                    let c = b.owner_at(g2, u2)->0;
                    &&& b.voice_map().contains_key(c)
                    &&& b.voice_map()[c].guild_id == g2
                    &&& b.voice_map()[c].owner_id == Some(u2)
                } by {
                    assert(a.owner_at(g2, u2) is Some);
                }
                assert forall|v: u64|
                    #[trigger] b.voice_map().contains_key(v)
                        && b.voice_map()[v].owner_id is Some
                    implies b.owner_at(
                        b.voice_map()[v].guild_id,
                        b.voice_map()[v].owner_id->0,
                    ) == Some(v) by {
                    assert(a.voice_map().contains_key(v));
                }
            }
            assert(b.joins_wf()) by {
                assert forall|j: u64| #[trigger] b.join_map().contains_key(j) implies {
                    let c = b.join_map()[j];
                    &&& b.category_map().contains_key(c)
                    &&& b.category_map()[c].join_channel_id == Some(j)
                    &&& !b.voice_map().contains_key(j)
                } by {
                    if join_channel_id == Some(j) {
                        assert(b.join_map()[j] == channel_id);
                    } else {
                        assert(a.join_map().contains_key(j));
                        let c = a.join_map()[j];
                        assert(a.category_map()[c].join_channel_id == Some(j));
                        if c == channel_id {
                            assert(old_join == Some(j));
                            assert(!b.join_map().contains_key(j));
                            assert(false);
                        }
                    }
                }
                assert forall|c: u64|
                    #[trigger] b.category_map().contains_key(c)
                        && b.category_map()[c].join_channel_id is Some implies {
                    let j = b.category_map()[c].join_channel_id->0;
                    &&& b.join_map().contains_key(j)
                    &&& b.join_map()[j] == c
                } by {
                    if c != channel_id {
                        assert(a.category_map().contains_key(c));
                        let j = a.category_map()[c].join_channel_id->0;
                        assert(a.join_map()[j] == c);
                        if old_join == Some(j) {
                            assert(a.join_map()[j] == channel_id);
                            assert(false);
                        }
                        if join_channel_id == Some(j) {
                            assert(a.join_map()[j] == channel_id);
                            assert(false);
                        }
                    }
                }
            }
        }
    }

    /// Caches a newly known category channel under its guild. The insert
    /// is dropped when the guild is unknown (a stale event) or the
    /// category is already cached; a trigger id that cannot be a trigger
    /// (a cached voice channel, or another category's trigger) is stored
    /// as absent. The child set starts empty: voice channels register
    /// themselves as they are cached.
    pub fn insert_category_channel(
        &mut self,
        guild_id: u64,
        id: u64,
        join_channel_id: Option<u64>,
        permission_overwrites: Vec<Overwrite>,
    )
        requires
            old(self).wf(),
        ensures
            final(self).wf(),
            old(self).category_map().contains_key(id)
                || !old(self).guild_map().contains_key(guild_id)
                ==> Self::same_state(*old(self), *final(self)),
            !old(self).category_map().contains_key(id)
                && old(self).guild_map().contains_key(guild_id) ==> {
                let eff = if join_channel_id is Some && !old(self).voice_map().contains_key(
                    join_channel_id->0,
                ) && !old(self).join_map().contains_key(join_channel_id->0) {
                    join_channel_id
                } else {
                    None::<u64>
                };
                &&& final(self).category_map() =~= old(self).category_map().insert(
                    id,
                    final(self).category_map()[id],
                )
                &&& final(self).category_map()[id].guild_id == guild_id
                &&& final(self).category_map()[id].id == id
                &&& final(self).category_map()[id].join_channel_id == eff
                &&& final(self).category_map()[id].permission_overwrites@
                    == permission_overwrites@
                &&& final(self).category_map()[id].voice_channel_ids@ == Seq::<u64>::empty()
                &&& final(self).guild_map() =~= old(self).guild_map().insert(
                    guild_id,
                    final(self).guild_map()[guild_id],
                )
                &&& final(self).guild_map()[guild_id].category_channel_ids@
                    == old(self).guild_map()[guild_id].category_channel_ids@.push(id)
                &&& final(self).guild_map()[guild_id].bot_role_id
                    == old(self).guild_map()[guild_id].bot_role_id
                &&& final(self).guild_map()[guild_id].id == guild_id
                &&& final(self).guild_map()[guild_id].permanence
                    == old(self).guild_map()[guild_id].permanence
                &&& final(self).guild_map()[guild_id].privacy
                    == old(self).guild_map()[guild_id].privacy
                &&& forall|j: u64|
                    #[trigger] final(self).join_map().contains_key(j) == (
                        old(self).join_map().contains_key(j) || eff == Some(j))
                &&& forall|j: u64| #[trigger] final(self).join_map().contains_key(j)
                    ==> final(self).join_map()[j] == if eff == Some(j) {
                        id
                    } else {
                        old(self).join_map()[j]
                    }
                &&& final(self).voice_map() == old(self).voice_map()
                &&& final(self).unavailable_set() == old(self).unavailable_set()
                &&& Self::same_indices(*old(self), *final(self))
            },
    {
        if self.category_channels.contains_key(&id) {
            proof {
                Self::lemma_wf_same_maps(*old(self), *self);
            }
            return;
        }
        let mut g = match self.guilds.remove(&guild_id) {
            None => {
                proof {
                    assert(self.guilds@ =~= old(self).guilds@);
                    Self::lemma_wf_same_maps(*old(self), *self);
                }
                return;
            },
            Some(g) => g,
        };
        let eff: Option<u64> = match join_channel_id {
            None => None,
            Some(j) => {
                if self.voice_channels.contains_key(&j) {
                    None
                } else if self.join_channels.contains_key(&j) {
                    None
                } else {
                    Some(j)
                }
            },
        };
        proof {
            if g.category_channel_ids@.contains(id) {
                assert(old(self).guild_map()[guild_id].category_channel_ids@.contains(id));
                assert(false);
            }
        }
        g.category_channel_ids.push(id);
        self.guilds.insert(guild_id, g);
        if let Some(j) = eff {
            self.join_channels.insert(j, id);
        }
        self.category_channels.insert(
            id,
            CachedCategoryChannel {
                guild_id,
                id,
                join_channel_id: eff,
                permission_overwrites,
                voice_channel_ids: Vec::new(),
            },
        );
        proof {
            let a = *old(self);
            let b = *self;
            assert(b.category_map() =~= a.category_map().insert(id, b.category_map()[id]));
            assert(b.guild_map() =~= a.guild_map().insert(guild_id, b.guild_map()[guild_id]));
            assert(b.guild_map()[guild_id].category_channel_ids@
                == a.guild_map()[guild_id].category_channel_ids@.push(id));
            assert forall|g2: u64, u2: u64|
                #[trigger] b.presence_at(g2, u2) == a.presence_at(g2, u2) by {}
            assert forall|g2: u64, u2: u64|
                #[trigger] b.owner_at(g2, u2) == a.owner_at(g2, u2) by {}
            let pushed = a.guild_map()[guild_id].category_channel_ids@.push(id);
            assert forall|c: u64| #[trigger] pushed.contains(c)
                implies a.guild_map()[guild_id].category_channel_ids@.contains(c) || c
                    == id by {
                let s = a.guild_map()[guild_id].category_channel_ids@;
                let j = choose|j: int| 0 <= j < pushed.len() && pushed[j] == c;
                if j < s.len() {
                    assert(s[j] == c);
                }
            }
            assert(b.guild_cats_wf()) by {
                assert forall|g2: u64| #[trigger] b.guild_map().contains_key(g2) implies {
                    &&& b.guild_map()[g2].id == g2
                    &&& b.guild_map()[g2].category_channel_ids@.no_duplicates()
                } by {
                    assert(a.guild_map().contains_key(g2));
                    if g2 == guild_id {
                        assert(!a.guild_map()[guild_id].category_channel_ids@.contains(id));
                        assert(pushed.no_duplicates());
                    }
                }
                assert forall|g2: u64, c: u64|
                    b.guild_map().contains_key(g2)
                        && #[trigger] b.guild_map()[g2].category_channel_ids@.contains(c)
                    implies {
                    &&& b.category_map().contains_key(c)
                    &&& b.category_map()[c].guild_id == g2
                } by {
                    if g2 == guild_id {
                        if c != id {
                            assert(a.guild_map()[g2].category_channel_ids@.contains(c));
                        }
                    } else {
                        assert(a.guild_map()[g2].category_channel_ids@.contains(c));
                        assert(a.category_map()[c].guild_id == g2);
                        assert(c != id);
                    }
                }
                assert forall|c: u64| #[trigger] b.category_map().contains_key(c) implies {
                    &&& b.category_map()[c].id == c
                    &&& b.guild_map().contains_key(b.category_map()[c].guild_id)
                    &&& b.guild_map()[b.category_map()[c].guild_id]
                        .category_channel_ids@.contains(c)
                } by {
                    if c == id {
                        assert(pushed[pushed.len() - 1] == id);
                        assert(pushed.contains(id));
                    } else {
                        assert(a.category_map().contains_key(c));
                        if a.category_map()[c].guild_id == guild_id {
                            let s = a.guild_map()[guild_id].category_channel_ids@;
                            assert(s.contains(c));
                            let j = choose|j: int| 0 <= j < s.len() && s[j] == c;
                            assert(pushed[j] == c);
                            assert(pushed.contains(c));
                        }
                    }
                }
            }
            assert(b.cat_voices_wf()) by {
                assert forall|c: u64, v: u64|
                    b.category_map().contains_key(c)
                        && #[trigger] b.category_map()[c].voice_channel_ids@.contains(v)
                    implies {
                    &&& b.voice_map().contains_key(v)
                    &&& b.voice_map()[v].parent_id == c
                } by {
                    if c != id {
                        assert(a.category_map().contains_key(c));
                        assert(a.category_map()[c].voice_channel_ids@.contains(v));
                    }
                }
                assert forall|v: u64| #[trigger] b.voice_map().contains_key(v) implies {
                    &&& b.voice_map()[v].id == v
                    &&& b.voice_map()[v].connected_user_ids@.no_duplicates()
                    &&& b.category_map().contains_key(b.voice_map()[v].parent_id)
                    &&& b.category_map()[b.voice_map()[v].parent_id]
                        .voice_channel_ids@.contains(v)
                } by {
                    assert(a.voice_map().contains_key(v));
                    assert(a.category_map().contains_key(a.voice_map()[v].parent_id));
                    assert(a.voice_map()[v].parent_id != id);
                }
            }
            assert(b.presence_wf()) by {
                assert forall|g2: u64, u2: u64|
                    #[trigger] b.presence_at(g2, u2) is Some implies {
                    let c = b.presence_at(g2, u2)->0;
                    &&& b.voice_map().contains_key(c)
                    &&& b.voice_map()[c].guild_id == g2
                    &&& b.voice_map()[c].connected_user_ids@.contains(u2)
                } by {
                    assert(a.presence_at(g2, u2) == b.presence_at(g2, u2));
                }
                assert forall|v: u64, u2: u64|
                    b.voice_map().contains_key(v)
                        && #[trigger] b.voice_map()[v].connected_user_ids@.contains(u2)
                    implies b.presence_at(b.voice_map()[v].guild_id, u2) == Some(v) by {
                    assert(a.voice_map().contains_key(v));
                    assert(a.voice_map()[v].connected_user_ids@.contains(u2));
                }
            }
            assert(b.owners_wf()) by {
                assert forall|g2: u64, u2: u64| #[trigger] b.owner_at(g2, u2) is Some implies {
                    let c = b.owner_at(g2, u2)->0;
                    &&& b.voice_map().contains_key(c)
                    &&& b.voice_map()[c].guild_id == g2
                    &&& b.voice_map()[c].owner_id == Some(u2)
                } by {
                    assert(a.owner_at(g2, u2) is Some);
                }
                assert forall|v: u64|
                    #[trigger] b.voice_map().contains_key(v)
                        && b.voice_map()[v].owner_id is Some
                    implies b.owner_at(
                        b.voice_map()[v].guild_id,
                        b.voice_map()[v].owner_id->0,
                    ) == Some(v) by {
                    assert(a.voice_map().contains_key(v));
                }
            }
            assert(b.joins_wf()) by {
                assert forall|j: u64| #[trigger] b.join_map().contains_key(j) implies {
                    let c = b.join_map()[j];
                    &&& b.category_map().contains_key(c)
                    &&& b.category_map()[c].join_channel_id == Some(j)
                    &&& !b.voice_map().contains_key(j)
                } by {
                    if eff != Some(j) {
                        assert(a.join_map().contains_key(j));
                        assert(a.category_map().contains_key(a.join_map()[j]));
                        assert(a.join_map()[j] != id);
                    }
                }
                assert forall|c: u64|
                    #[trigger] b.category_map().contains_key(c)
                        && b.category_map()[c].join_channel_id is Some implies {
                    let j = b.category_map()[c].join_channel_id->0;
                    &&& b.join_map().contains_key(j)
                    &&& b.join_map()[j] == c
                } by {
                    if c != id {
                        assert(a.category_map().contains_key(c));
                        let j = a.category_map()[c].join_channel_id->0;
                        assert(a.join_map().contains_key(j));
                        assert(a.join_map()[j] == c);
                        assert(eff != Some(j));
                    }
                }
            }
        }
    }

    /// Drops a voice channel and everything derived from it: its presence
    /// entries, its ownership entry, and its place in its parent category's
    /// child set. Called when the platform confirms the deletion; a miss
    /// mutates nothing.
    pub fn remove_voice_channel(&mut self, channel_id: u64)
        requires
            old(self).wf(),
        ensures
            final(self).wf(),
            !old(self).voice_map().contains_key(channel_id)
                ==> Self::same_state(*old(self), *final(self)),
            old(self).voice_map().contains_key(channel_id) ==> {
                &&& final(self).voice_map() =~= old(self).voice_map().remove(channel_id)
                &&& final(self).guild_map() == old(self).guild_map()
                &&& final(self).join_map() == old(self).join_map()
                &&& final(self).unavailable_set() == old(self).unavailable_set()
                &&& final(self).category_map().dom() == old(self).category_map().dom()
                &&& forall|c: u64| #[trigger] final(self).category_map().contains_key(c) ==> {
                    let ac = old(self).category_map()[c];
                    let bc = final(self).category_map()[c];
                    &&& bc.guild_id == ac.guild_id
                    &&& bc.id == ac.id
                    &&& bc.join_channel_id == ac.join_channel_id
                    &&& bc.permission_overwrites@ == ac.permission_overwrites@
                    &&& forall|v: u64|
                        #[trigger] bc.voice_channel_ids@.contains(v) == (
                            ac.voice_channel_ids@.contains(v) && v != channel_id)
                }
                &&& forall|c: u64|
                    #[trigger] final(self).category_map().contains_key(c) && c != old(
                        self,
                    ).voice_map()[channel_id].parent_id ==> final(self).category_map()[c]
                        == old(self).category_map()[c]
                &&& forall|g: u64, u: u64|
                    #[trigger] final(self).presence_at(g, u) == if old(self).presence_at(g, u)
                        == Some(channel_id) {
                        None::<u64>
                    } else {
                        old(self).presence_at(g, u)
                    }
                &&& forall|g: u64, u: u64|
                    #[trigger] final(self).owner_at(g, u) == if old(self).owner_at(g, u)
                        == Some(channel_id) {
                        None::<u64>
                    } else {
                        old(self).owner_at(g, u)
                    }
            },
    {
        let vc = match self.voice_channels.remove(&channel_id) {
            None => {
                proof {
                    assert(self.voice_channels@ =~= old(self).voice_channels@);
                    Self::lemma_wf_same_maps(*old(self), *self);
                }
                return;
            },
            Some(vc) => vc,
        };
        let guild_id = vc.guild_id;
        if let Some(u0) = vc.owner_id {
            self.voice_channel_owners.remove(&pack_key(guild_id, u0));
        }
        proof {
            assert(self.voice_channels@ =~= old(self).voice_channels@.remove(channel_id));
            assert forall|g: u64, u: u64|
                #[trigger] self.owner_at(g, u) == if old(self).owner_at(g, u)
                    == Some(channel_id) {
                    None::<u64>
                } else {
                    old(self).owner_at(g, u)
                } by {
                if old(self).owner_at(g, u) == Some(channel_id) {
                    assert(old(self).voice_map()[channel_id].owner_id == Some(u));
                    assert(old(self).voice_map()[channel_id].guild_id == g);
                }
                match vc.owner_id {
                    Some(u0) => {
                        if pk(g, u) == pk(guild_id, u0) {
                            lemma_pk_injective(g, u, guild_id, u0);
                            assert(old(self).owner_at(guild_id, u0) == Some(channel_id));
                        }
                    },
                    None => {
                        if old(self).owner_at(g, u) == Some(channel_id) {
                            assert(false);
                        }
                    },
                }
            }
        }
        let mut i: usize = 0;
        while i < vc.connected_user_ids.len()
            invariant
                old(self).wf(),
                old(self).voice_map().contains_key(channel_id),
                vc == old(self).voice_map()[channel_id],
                guild_id == vc.guild_id,
                i <= vc.connected_user_ids@.len(),
                self.guilds@ == old(self).guilds@,
                self.category_channels@ == old(self).category_channels@,
                self.join_channels@ == old(self).join_channels@,
                self.unavailable_guilds@ == old(self).unavailable_guilds@,
                self.voice_channels@ == old(self).voice_channels@.remove(channel_id),
                forall|g: u64, u: u64|
                    #[trigger] self.owner_at(g, u) == if old(self).owner_at(g, u)
                        == Some(channel_id) {
                        None::<u64>
                    } else {
                        old(self).owner_at(g, u)
                    },
                forall|g: u64, u: u64|
                    #[trigger] self.presence_at(g, u) == if g == guild_id
                        && vc.connected_user_ids@.take(i as int).contains(u) {
                        None::<u64>
                    } else {
                        old(self).presence_at(g, u)
                    },
            decreases vc.connected_user_ids@.len() - i,
        {
            let u = vc.connected_user_ids[i];
            let ghost before = *self;
            self.voice_states.remove(&pack_key(guild_id, u));
            proof {
                assert forall|g2: u64, u2: u64|
                    #[trigger] self.owner_at(g2, u2) == before.owner_at(g2, u2) by {}
                assert(vc.connected_user_ids@.take(i as int + 1)
                    =~= vc.connected_user_ids@.take(i as int).push(u));
                assert forall|g2: u64, u2: u64|
                    #[trigger] self.presence_at(g2, u2) == if g2 == guild_id
                        && vc.connected_user_ids@.take(i as int + 1).contains(u2) {
                        None::<u64>
                    } else {
                        old(self).presence_at(g2, u2)
                    } by {
                    let s = vc.connected_user_ids@.take(i as int);
                    let s1 = vc.connected_user_ids@.take(i as int + 1);
                    if pk(g2, u2) == pk(guild_id, u) {
                        lemma_pk_injective(g2, u2, guild_id, u);
                        assert(s1[i as int] == u);
                        assert(s1.contains(u2));
                    } else {
                        assert(self.presence_at(g2, u2) == before.presence_at(g2, u2));
                        if s1.contains(u2) && !s.contains(u2) {
                            let j = choose|j: int| 0 <= j <= i && #[trigger] s1[j] == u2;
                            if j < i {
                                assert(s[j] == u2);
                            } else {
                                assert(u2 == u);
                            }
                            if g2 == guild_id && u2 == u {
                                assert(false);
                            }
                        }
                        if s.contains(u2) {
                            let j = choose|j: int| 0 <= j < i && #[trigger] s[j] == u2;
                            assert(s1[j] == u2);
                        }
                    }
                }
            }
            i += 1;
        }
        proof {
            assert(vc.connected_user_ids@.take(vc.connected_user_ids@.len() as int)
                =~= vc.connected_user_ids@);
        }
        let ghost s2 = *self;
        match self.category_channels.remove(&vc.parent_id) {
            Some(mut cat) => {
                vec_remove_value(&mut cat.voice_channel_ids, channel_id);
                self.category_channels.insert(vc.parent_id, cat);
            },
            None => {
                proof {
                    assert(false);
                }
            },
        }
        proof {
            let a = *old(self);
            let b = *self;
            assert(b.category_map() =~= a.category_map().insert(
                vc.parent_id,
                b.category_map()[vc.parent_id],
            ));
            assert(b.category_map().dom() =~= a.category_map().dom());
            assert forall|g: u64, u: u64|
                #[trigger] b.presence_at(g, u) == s2.presence_at(g, u) by {}
            assert forall|g: u64, u: u64|
                #[trigger] b.owner_at(g, u) == s2.owner_at(g, u) by {}
            assert forall|g: u64, u: u64|
                #[trigger] b.presence_at(g, u) == if a.presence_at(g, u) == Some(channel_id) {
                    None::<u64>
                } else {
                    a.presence_at(g, u)
                } by {
                if a.presence_at(g, u) == Some(channel_id) {
                    assert(a.voice_map()[channel_id].guild_id == g);
                    assert(a.voice_map()[channel_id].connected_user_ids@.contains(u));
                }
                if g == guild_id && vc.connected_user_ids@.contains(u) {
                    assert(a.presence_at(guild_id, u) == Some(channel_id));
                }
            }
            assert forall|c: u64| #[trigger] b.category_map().contains_key(c) implies {
                let ac = a.category_map()[c];
                let bc = b.category_map()[c];
                &&& bc.guild_id == ac.guild_id
                &&& bc.id == ac.id
                &&& bc.join_channel_id == ac.join_channel_id
                &&& bc.permission_overwrites@ == ac.permission_overwrites@
                &&& bc.voice_channel_ids@.no_duplicates()
                &&& forall|v: u64|
                    #[trigger] bc.voice_channel_ids@.contains(v) == (
                        ac.voice_channel_ids@.contains(v) && v != channel_id)
            } by {
                assert(a.category_map().contains_key(c));
                if c != vc.parent_id {
                    assert forall|v: u64|
                        #[trigger] b.category_map()[c].voice_channel_ids@.contains(v) == (
                            a.category_map()[c].voice_channel_ids@.contains(v) && v
                                != channel_id) by {
                        if a.category_map()[c].voice_channel_ids@.contains(channel_id) {
                            assert(a.voice_map()[channel_id].parent_id == c);
                            assert(false);
                        }
                    }
                }
            }
            assert(b.guild_cats_wf()) by {
                assert forall|g: u64, c: u64|
                    b.guild_map().contains_key(g)
                        && #[trigger] b.guild_map()[g].category_channel_ids@.contains(c)
                    implies {
                    &&& b.category_map().contains_key(c)
                    &&& b.category_map()[c].guild_id == g
                } by {
                    assert(a.guild_map()[g].category_channel_ids@.contains(c));
                }
                assert forall|c: u64| #[trigger] b.category_map().contains_key(c) implies {
                    &&& b.category_map()[c].id == c
                    &&& b.guild_map().contains_key(b.category_map()[c].guild_id)
                    &&& b.guild_map()[b.category_map()[c].guild_id]
                        .category_channel_ids@.contains(c)
                } by {
                    assert(a.category_map().contains_key(c));
                }
            }
            assert(b.cat_voices_wf()) by {
                assert forall|c: u64, v: u64|
                    b.category_map().contains_key(c)
                        && #[trigger] b.category_map()[c].voice_channel_ids@.contains(v)
                    implies {
                    &&& b.voice_map().contains_key(v)
                    &&& b.voice_map()[v].parent_id == c
                } by {
                    assert(a.category_map().contains_key(c));
                    assert(a.category_map()[c].voice_channel_ids@.contains(v) && v
                        != channel_id);
                }
                assert forall|v: u64| #[trigger] b.voice_map().contains_key(v) implies {
                    &&& b.voice_map()[v].id == v
                    &&& b.voice_map()[v].connected_user_ids@.no_duplicates()
                    &&& b.category_map().contains_key(b.voice_map()[v].parent_id)
                    &&& b.category_map()[b.voice_map()[v].parent_id]
                        .voice_channel_ids@.contains(v)
                } by {
                    assert(a.voice_map().contains_key(v) && v != channel_id);
                    assert(a.category_map()[a.voice_map()[v].parent_id]
                        .voice_channel_ids@.contains(v));
                }
            }
            assert(b.presence_wf()) by {
                assert forall|g: u64, u: u64|
                    #[trigger] b.presence_at(g, u) is Some implies {
                    let c = b.presence_at(g, u)->0;
                    &&& b.voice_map().contains_key(c)
                    &&& b.voice_map()[c].guild_id == g
                    &&& b.voice_map()[c].connected_user_ids@.contains(u)
                } by {
                    let c = b.presence_at(g, u)->0;
                    assert(c != channel_id);
                    assert(a.presence_at(g, u) == Some(c));
                    assert(a.voice_map()[c].connected_user_ids@.contains(u));
                }
                assert forall|v: u64, u: u64|
                    b.voice_map().contains_key(v)
                        && #[trigger] b.voice_map()[v].connected_user_ids@.contains(u)
                    implies b.presence_at(b.voice_map()[v].guild_id, u) == Some(v) by {
                    assert(a.voice_map().contains_key(v) && v != channel_id);
                    assert(a.voice_map()[v].connected_user_ids@.contains(u));
                    assert(a.presence_at(a.voice_map()[v].guild_id, u) == Some(v));
                }
            }
            assert(b.owners_wf()) by {
                assert forall|g: u64, u: u64| #[trigger] b.owner_at(g, u) is Some implies {
                    let c = b.owner_at(g, u)->0;
                    &&& b.voice_map().contains_key(c)
                    &&& b.voice_map()[c].guild_id == g
                    &&& b.voice_map()[c].owner_id == Some(u)
                } by {
                    let c = b.owner_at(g, u)->0;
                    assert(a.owner_at(g, u) == Some(c));
                    assert(c != channel_id);
                }
                assert forall|v: u64|
                    #[trigger] b.voice_map().contains_key(v)
                        && b.voice_map()[v].owner_id is Some
                    implies b.owner_at(
                        b.voice_map()[v].guild_id,
                        b.voice_map()[v].owner_id->0,
                    ) == Some(v) by {
                    assert(a.voice_map().contains_key(v) && v != channel_id);
                    assert(a.owner_at(
                        a.voice_map()[v].guild_id,
                        a.voice_map()[v].owner_id->0,
                    ) == Some(v));
                }
            }
            assert(b.joins_wf()) by {
                assert forall|j: u64| #[trigger] b.join_map().contains_key(j) implies {
                    let c = b.join_map()[j];
                    &&& b.category_map().contains_key(c)
                    &&& b.category_map()[c].join_channel_id == Some(j)
                    &&& !b.voice_map().contains_key(j)
                } by {
                    assert(a.join_map().contains_key(j));
                    assert(a.category_map().contains_key(a.join_map()[j]));
                }
                assert forall|c: u64|
                    #[trigger] b.category_map().contains_key(c)
                        && b.category_map()[c].join_channel_id is Some implies {
                    let j = b.category_map()[c].join_channel_id->0;
                    &&& b.join_map().contains_key(j)
                    &&& b.join_map()[j] == c
                } by {
                    assert(a.category_map().contains_key(c));
                }
            }
        }
    }

    /// Drops a category channel with a full cascade: every child voice
    /// channel is removed first (with its presence and ownership entries),
    /// then the category's trigger entry, then the category itself, which
    /// is finally detached from its guild. A miss mutates nothing.
    pub fn remove_category_channel(&mut self, channel_id: u64)
        requires
            old(self).wf(),
        ensures
            final(self).wf(),
            !old(self).category_map().contains_key(channel_id)
                ==> Self::same_state(*old(self), *final(self)),
            old(self).category_map().contains_key(channel_id) ==> {
                &&& final(self).category_map() =~= old(self).category_map().remove(channel_id)
                &&& final(self).unavailable_set() == old(self).unavailable_set()
                &&& forall|v: u64|
                    #[trigger] final(self).voice_map().contains_key(v) == (
                        old(self).voice_map().contains_key(v)
                        && old(self).voice_map()[v].parent_id != channel_id)
                &&& forall|v: u64| #[trigger] final(self).voice_map().contains_key(v)
                    ==> final(self).voice_map()[v] == old(self).voice_map()[v]
                &&& final(self).guild_map().dom() == old(self).guild_map().dom()
                &&& forall|g: u64| #[trigger] final(self).guild_map().contains_key(g) ==> {
                    let ag = old(self).guild_map()[g];
                    let bg = final(self).guild_map()[g];
                    &&& bg.bot_role_id == ag.bot_role_id
                    &&& bg.id == ag.id
                    &&& bg.permanence == ag.permanence
                    &&& bg.privacy == ag.privacy
                    &&& forall|c: u64|
                        #[trigger] bg.category_channel_ids@.contains(c) == (
                            ag.category_channel_ids@.contains(c) && c != channel_id)
                }
                &&& forall|g: u64|
                    #[trigger] final(self).guild_map().contains_key(g) && g != old(
                        self,
                    ).category_map()[channel_id].guild_id ==> final(self).guild_map()[g]
                        == old(self).guild_map()[g]
                &&& forall|j: u64|
                    #[trigger] final(self).join_map().contains_key(j) == (
                        old(self).join_map().contains_key(j) && old(self).join_map()[j]
                            != channel_id)
                &&& forall|j: u64| #[trigger] final(self).join_map().contains_key(j)
                    ==> final(self).join_map()[j] == old(self).join_map()[j]
                &&& forall|g: u64, u: u64|
                    #[trigger] final(self).presence_at(g, u) == if old(self).presence_at(g, u)
                        is Some && old(self).voice_map().contains_key(
                        old(self).presence_at(g, u)->0,
                    ) && old(self).voice_map()[old(self).presence_at(g, u)->0].parent_id
                        == channel_id {
                        None::<u64>
                    } else {
                        old(self).presence_at(g, u)
                    }
                &&& forall|g: u64, u: u64|
                    #[trigger] final(self).owner_at(g, u) == if old(self).owner_at(g, u)
                        is Some && old(self).voice_map().contains_key(
                        old(self).owner_at(g, u)->0,
                    ) && old(self).voice_map()[old(self).owner_at(g, u)->0].parent_id
                        == channel_id {
                        None::<u64>
                    } else {
                        old(self).owner_at(g, u)
                    }
            },
    {
        let children = match self.category_channels.get(&channel_id) {
            None => {
                proof {
                    Self::lemma_wf_same_maps(*old(self), *self);
                }
                return;
            },
            Some(cat) => vec_copy(&cat.voice_channel_ids),
        };
        let ghost kids: Seq<u64> = children@;
        let mut i: usize = 0;
        while i < children.len()
            invariant
                old(self).wf(),
                self.wf(),
                old(self).category_map().contains_key(channel_id),
                kids == old(self).category_map()[channel_id].voice_channel_ids@,
                children@ == kids,
                i <= kids.len(),
                self.guilds@ == old(self).guilds@,
                self.join_channels@ == old(self).join_channels@,
                self.unavailable_guilds@ == old(self).unavailable_guilds@,
                self.category_map().dom() == old(self).category_map().dom(),
                forall|c: u64|
                    #[trigger] self.category_map().contains_key(c) && c != channel_id
                    ==> self.category_map()[c] == old(self).category_map()[c],
                ({
                    let ac = old(self).category_map()[channel_id];
                    let bc = self.category_map()[channel_id];
                    &&& bc.guild_id == ac.guild_id
                    &&& bc.id == ac.id
                    &&& bc.join_channel_id == ac.join_channel_id
                    &&& bc.permission_overwrites@ == ac.permission_overwrites@
                    &&& forall|v: u64|
                        #[trigger] bc.voice_channel_ids@.contains(v) == (
                            ac.voice_channel_ids@.contains(v) && !kids.take(
                                i as int,
                            ).contains(v))
                }),
                forall|v: u64|
                    #[trigger] self.voice_map().contains_key(v) == (
                        old(self).voice_map().contains_key(v) && !kids.take(
                            i as int,
                        ).contains(v)),
                forall|v: u64| #[trigger] self.voice_map().contains_key(v)
                    ==> self.voice_map()[v] == old(self).voice_map()[v],
                forall|g: u64, u: u64|
                    #[trigger] self.presence_at(g, u) == if old(self).presence_at(g, u)
                        is Some && kids.take(i as int).contains(
                        old(self).presence_at(g, u)->0,
                    ) {
                        None::<u64>
                    } else {
                        old(self).presence_at(g, u)
                    },
                forall|g: u64, u: u64|
                    #[trigger] self.owner_at(g, u) == if old(self).owner_at(g, u) is Some
                        && kids.take(i as int).contains(old(self).owner_at(g, u)->0) {
                        None::<u64>
                    } else {
                        old(self).owner_at(g, u)
                    },
            decreases kids.len() - i,
        {
            let child = children[i];
            let ghost s1 = *self;
            proof {
                assert(kids.take(i as int + 1) =~= kids.take(i as int).push(child));
                assert(kids.contains(child)) by {
                    assert(kids[i as int] == child);
                }
                assert(old(self).category_map()[channel_id]
                    .voice_channel_ids@.contains(child));
                assert(old(self).voice_map().contains_key(child));
                assert(old(self).voice_map()[child].parent_id == channel_id);
                if kids.take(i as int).contains(child) {
                    let j = choose|j: int| 0 <= j < i && #[trigger] kids.take(i as int)[j]
                        == child;
                    assert(kids[j] == kids[i as int]);
                    assert(old(self).category_map()[channel_id]
                        .voice_channel_ids@.no_duplicates());
                    assert(false);
                }
                assert(s1.voice_map().contains_key(child));
            }
            self.remove_voice_channel(child);
            proof {
                let b = *self;
                assert forall|v: u64|
                    #[trigger] b.voice_map().contains_key(v) == (
                        old(self).voice_map().contains_key(v) && !kids.take(
                            i as int + 1,
                        ).contains(v)) by {
                    if kids.take(i as int + 1).contains(v) {
                        let j = choose|j: int|
                            0 <= j <= i && #[trigger] kids.take(i as int + 1)[j] == v;
                        if j < i {
                            assert(kids.take(i as int)[j] == v);
                            assert(kids.take(i as int).contains(v));
                        } else {
                            assert(v == child);
                        }
                    }
                    if kids.take(i as int).contains(v) {
                        let j = choose|j: int|
                            0 <= j < i && #[trigger] kids.take(i as int)[j] == v;
                        assert(kids.take(i as int + 1)[j] == v);
                        assert(kids.take(i as int + 1).contains(v));
                    }
                    if v == child {
                        assert(kids.take(i as int + 1)[i as int] == child);
                        assert(kids.take(i as int + 1).contains(v));
                    }
                }
                assert forall|g: u64, u: u64|
                    #[trigger] b.presence_at(g, u) == if old(self).presence_at(g, u) is Some
                        && kids.take(i as int + 1).contains(old(self).presence_at(g, u)->0) {
                        None::<u64>
                    } else {
                        old(self).presence_at(g, u)
                    } by {
                    let p0 = old(self).presence_at(g, u);
                    assert(b.presence_at(g, u) == if s1.presence_at(g, u) == Some(child) {
                        None::<u64>
                    } else {
                        s1.presence_at(g, u)
                    });
                    if p0 is Some {
                        let c = p0->0;
                        if kids.take(i as int + 1).contains(c) {
                            if kids.take(i as int).contains(c) {
                                assert(s1.presence_at(g, u) is None);
                            } else {
                                assert(c == child) by {
                                    let j = choose|j: int|
                                        0 <= j <= i && #[trigger] kids.take(
                                            i as int + 1,
                                        )[j] == c;
                                    if j < i {
                                        assert(kids.take(i as int)[j] == c);
                                    }
                                }
                                assert(s1.presence_at(g, u) == p0);
                            }
                        } else {
                            assert(!kids.take(i as int).contains(c));
                            assert(s1.presence_at(g, u) == p0);
                            assert(c != child) by {
                                if c == child {
                                    assert(kids.take(i as int + 1)[i as int] == child);
                                }
                            }
                        }
                    }
                }
                assert forall|g: u64, u: u64|
                    #[trigger] b.owner_at(g, u) == if old(self).owner_at(g, u) is Some
                        && kids.take(i as int + 1).contains(old(self).owner_at(g, u)->0) {
                        None::<u64>
                    } else {
                        old(self).owner_at(g, u)
                    } by {
                    let p0 = old(self).owner_at(g, u);
                    assert(b.owner_at(g, u) == if s1.owner_at(g, u) == Some(child) {
                        None::<u64>
                    } else {
                        s1.owner_at(g, u)
                    });
                    if p0 is Some {
                        let c = p0->0;
                        if kids.take(i as int + 1).contains(c) {
                            if kids.take(i as int).contains(c) {
                                assert(s1.owner_at(g, u) is None);
                            } else {
                                assert(c == child) by {
                                    let j = choose|j: int|
                                        0 <= j <= i && #[trigger] kids.take(
                                            i as int + 1,
                                        )[j] == c;
                                    if j < i {
                                        assert(kids.take(i as int)[j] == c);
                                    }
                                }
                                assert(s1.owner_at(g, u) == p0);
                            }
                        } else {
                            assert(!kids.take(i as int).contains(c));
                            assert(s1.owner_at(g, u) == p0);
                            assert(c != child) by {
                                if c == child {
                                    assert(kids.take(i as int + 1)[i as int] == child);
                                }
                            }
                        }
                    }
                }
                assert(s1.voice_map()[child].parent_id == channel_id);
                assert forall|c: u64|
                    #[trigger] self.category_map().contains_key(c) && c != channel_id
                    implies self.category_map()[c] == old(self).category_map()[c] by {
                    assert(s1.category_map().contains_key(c));
                    assert(self.category_map()[c] == s1.category_map()[c]);
                }
                assert({
                    let ac = old(self).category_map()[channel_id];
                    let bc = self.category_map()[channel_id];
                    &&& bc.guild_id == ac.guild_id
                    &&& bc.id == ac.id
                    &&& bc.join_channel_id == ac.join_channel_id
                    &&& bc.permission_overwrites@ == ac.permission_overwrites@
                }) by {
                    assert(s1.category_map().contains_key(channel_id));
                }
                assert forall|v: u64|
                    #[trigger] self.category_map()[channel_id].voice_channel_ids@.contains(v)
                        == (old(self).category_map()[channel_id]
                            .voice_channel_ids@.contains(v) && !kids.take(
                            i as int + 1,
                        ).contains(v)) by {
                    assert(self.category_map()[channel_id].voice_channel_ids@.contains(v)
                        == (s1.category_map()[channel_id].voice_channel_ids@.contains(v)
                            && v != child));
                    if kids.take(i as int + 1).contains(v) && v != child {
                        let j = choose|j: int|
                            0 <= j <= i && #[trigger] kids.take(i as int + 1)[j] == v;
                        if j < i {
                            assert(kids.take(i as int)[j] == v);
                        }
                    }
                    if kids.take(i as int).contains(v) {
                        let j = choose|j: int|
                            0 <= j < i && #[trigger] kids.take(i as int)[j] == v;
                        assert(kids.take(i as int + 1)[j] == v);
                    }
                    if v == child {
                        assert(kids.take(i as int + 1)[i as int] == v);
                    }
                }
            }
            i += 1;
        }
        proof {
            assert(kids.take(kids.len() as int) =~= kids);
        }
        let ghost s2 = *self;
        let cat = match self.category_channels.remove(&channel_id) {
            Some(cat) => cat,
            None => {
                proof {
                    assert(false);
                }
                return;
            },
        };
        if let Some(j) = cat.join_channel_id {
            self.join_channels.remove(&j);
        }
        match self.guilds.remove(&cat.guild_id) {
            Some(mut g) => {
                vec_remove_value(&mut g.category_channel_ids, channel_id);
                self.guilds.insert(cat.guild_id, g);
            },
            None => {
                proof {
                    assert(false);
                }
            },
        }
        proof {
            let a = *old(self);
            let b = *self;
            let gid = a.category_map()[channel_id].guild_id;
            assert(cat.guild_id == gid);
            assert(b.category_map() =~= a.category_map().remove(channel_id));
            assert(b.guild_map() =~= a.guild_map().insert(gid, b.guild_map()[gid]));
            assert(b.guild_map().dom() =~= a.guild_map().dom());
            assert forall|g: u64, u: u64|
                #[trigger] b.presence_at(g, u) == s2.presence_at(g, u) by {}
            assert forall|g: u64, u: u64|
                #[trigger] b.owner_at(g, u) == s2.owner_at(g, u) by {}
            assert forall|g: u64, u: u64|
                #[trigger] b.presence_at(g, u) == if a.presence_at(g, u) is Some
                    && a.voice_map().contains_key(a.presence_at(g, u)->0) && a.voice_map()[
                    a.presence_at(g, u)->0
                ].parent_id == channel_id {
                    None::<u64>
                } else {
                    a.presence_at(g, u)
                } by {
                if a.presence_at(g, u) is Some {
                    let c = a.presence_at(g, u)->0;
                    if a.voice_map().contains_key(c) && a.voice_map()[c].parent_id
                        == channel_id {
                        assert(a.category_map()[channel_id].voice_channel_ids@.contains(c));
                        assert(kids.contains(c));
                    } else {
                        if kids.contains(c) {
                            assert(a.category_map()[channel_id]
                                .voice_channel_ids@.contains(c));
                            assert(a.voice_map().contains_key(c)
                                && a.voice_map()[c].parent_id == channel_id);
                        }
                    }
                }
            }
            assert forall|g: u64, u: u64|
                #[trigger] b.owner_at(g, u) == if a.owner_at(g, u) is Some
                    && a.voice_map().contains_key(a.owner_at(g, u)->0) && a.voice_map()[
                    a.owner_at(g, u)->0
                ].parent_id == channel_id {
                    None::<u64>
                } else {
                    a.owner_at(g, u)
                } by {
                if a.owner_at(g, u) is Some {
                    let c = a.owner_at(g, u)->0;
                    if a.voice_map().contains_key(c) && a.voice_map()[c].parent_id
                        == channel_id {
                        assert(a.category_map()[channel_id].voice_channel_ids@.contains(c));
                        assert(kids.contains(c));
                    } else {
                        if kids.contains(c) {
                            assert(a.category_map()[channel_id]
                                .voice_channel_ids@.contains(c));
                        }
                    }
                }
            }
            assert forall|v: u64|
                #[trigger] b.voice_map().contains_key(v) == (a.voice_map().contains_key(v)
                    && a.voice_map()[v].parent_id != channel_id) by {
                if a.voice_map().contains_key(v) {
                    if a.voice_map()[v].parent_id == channel_id {
                        assert(a.category_map()[channel_id].voice_channel_ids@.contains(v));
                        assert(kids.contains(v));
                    } else {
                        if kids.contains(v) {
                            assert(a.category_map()[channel_id]
                                .voice_channel_ids@.contains(v));
                        }
                    }
                }
            }
            assert(b.guild_cats_wf()) by {
                assert forall|g: u64| #[trigger] b.guild_map().contains_key(g) implies {
                    &&& b.guild_map()[g].id == g
                    &&& b.guild_map()[g].category_channel_ids@.no_duplicates()
                } by {
                    assert(a.guild_map().contains_key(g));
                }
                assert forall|g: u64, c: u64|
                    b.guild_map().contains_key(g)
                        && #[trigger] b.guild_map()[g].category_channel_ids@.contains(c)
                    implies {
                    &&& b.category_map().contains_key(c)
                    &&& b.category_map()[c].guild_id == g
                } by {
                    if g == gid {
                        assert(a.guild_map()[g].category_channel_ids@.contains(c) && c
                            != channel_id);
                    } else {
                        assert(a.guild_map()[g].category_channel_ids@.contains(c));
                        assert(a.category_map()[c].guild_id == g);
                        assert(c != channel_id);
                    }
                }
                assert forall|c: u64| #[trigger] b.category_map().contains_key(c) implies {
                    &&& b.category_map()[c].id == c
                    &&& b.guild_map().contains_key(b.category_map()[c].guild_id)
                    &&& b.guild_map()[b.category_map()[c].guild_id]
                        .category_channel_ids@.contains(c)
                } by {
                    assert(a.category_map().contains_key(c) && c != channel_id);
                    assert(a.guild_map()[a.category_map()[c].guild_id]
                        .category_channel_ids@.contains(c));
                }
            }
            assert(b.cat_voices_wf()) by {
                assert forall|c: u64, v: u64|
                    b.category_map().contains_key(c)
                        && #[trigger] b.category_map()[c].voice_channel_ids@.contains(v)
                    implies {
                    &&& b.voice_map().contains_key(v)
                    &&& b.voice_map()[v].parent_id == c
                } by {
                    assert(c != channel_id);
                    assert(a.category_map()[c].voice_channel_ids@.contains(v)
                        && !kids.contains(v));
                    assert(a.voice_map().contains_key(v) && a.voice_map()[v].parent_id == c);
                }
                assert forall|v: u64| #[trigger] b.voice_map().contains_key(v) implies {
                    &&& b.voice_map()[v].id == v
                    &&& b.voice_map()[v].connected_user_ids@.no_duplicates()
                    &&& b.category_map().contains_key(b.voice_map()[v].parent_id)
                    &&& b.category_map()[b.voice_map()[v].parent_id]
                        .voice_channel_ids@.contains(v)
                } by {
                    assert(a.voice_map().contains_key(v));
                    assert(a.voice_map()[v].parent_id != channel_id);
                    assert(a.category_map()[a.voice_map()[v].parent_id]
                        .voice_channel_ids@.contains(v));
                    if kids.contains(v) {
                        assert(a.category_map()[channel_id].voice_channel_ids@.contains(v));
                        assert(a.voice_map()[v].parent_id == channel_id);
                    }
                }
            }
            assert(b.presence_wf()) by {
                assert forall|g: u64, u: u64|
                    #[trigger] b.presence_at(g, u) is Some implies {
                    let c = b.presence_at(g, u)->0;
                    &&& b.voice_map().contains_key(c)
                    &&& b.voice_map()[c].guild_id == g
                    &&& b.voice_map()[c].connected_user_ids@.contains(u)
                } by {
                    let c = b.presence_at(g, u)->0;
                    assert(a.presence_at(g, u) == Some(c));
                    assert(a.voice_map().contains_key(c));
                    assert(a.voice_map()[c].connected_user_ids@.contains(u));
                }
                assert forall|v: u64, u: u64|
                    b.voice_map().contains_key(v)
                        && #[trigger] b.voice_map()[v].connected_user_ids@.contains(u)
                    implies b.presence_at(b.voice_map()[v].guild_id, u) == Some(v) by {
                    assert(a.voice_map().contains_key(v));
                    assert(a.voice_map()[v].connected_user_ids@.contains(u));
                    assert(a.presence_at(a.voice_map()[v].guild_id, u) == Some(v));
                    assert(a.voice_map()[v].parent_id != channel_id);
                }
            }
            assert(b.owners_wf()) by {
                assert forall|g: u64, u: u64| #[trigger] b.owner_at(g, u) is Some implies {
                    let c = b.owner_at(g, u)->0;
                    &&& b.voice_map().contains_key(c)
                    &&& b.voice_map()[c].guild_id == g
                    &&& b.voice_map()[c].owner_id == Some(u)
                } by {
                    let c = b.owner_at(g, u)->0;
                    assert(a.owner_at(g, u) == Some(c));
                    assert(a.voice_map().contains_key(c));
                }
                assert forall|v: u64|
                    #[trigger] b.voice_map().contains_key(v)
                        && b.voice_map()[v].owner_id is Some
                    implies b.owner_at(
                        b.voice_map()[v].guild_id,
                        b.voice_map()[v].owner_id->0,
                    ) == Some(v) by {
                    assert(a.voice_map().contains_key(v));
                    assert(a.owner_at(
                        a.voice_map()[v].guild_id,
                        a.voice_map()[v].owner_id->0,
                    ) == Some(v));
                    assert(a.voice_map()[v].parent_id != channel_id);
                }
            }
            assert(b.joins_wf()) by {
                assert forall|j: u64| #[trigger] b.join_map().contains_key(j) implies {
                    let c = b.join_map()[j];
                    &&& b.category_map().contains_key(c)
                    &&& b.category_map()[c].join_channel_id == Some(j)
                    &&& !b.voice_map().contains_key(j)
                } by {
                    assert(a.join_map().contains_key(j));
                    let c = a.join_map()[j];
                    assert(a.category_map()[c].join_channel_id == Some(j));
                    if c == channel_id {
                        assert(cat.join_channel_id == Some(j));
                        assert(!b.join_map().contains_key(j));
                    }
                }
                assert forall|c: u64|
                    #[trigger] b.category_map().contains_key(c)
                        && b.category_map()[c].join_channel_id is Some implies {
                    let j = b.category_map()[c].join_channel_id->0;
                    &&& b.join_map().contains_key(j)
                    &&& b.join_map()[j] == c
                } by {
                    assert(c != channel_id);
                    assert(a.category_map().contains_key(c));
                    let j = a.category_map()[c].join_channel_id->0;
                    assert(a.join_map()[j] == c);
                    if cat.join_channel_id == Some(j) {
                        assert(a.join_map()[j] == channel_id);
                        assert(false);
                    }
                }
            }
            assert forall|j: u64|
                #[trigger] b.join_map().contains_key(j) == (a.join_map().contains_key(j)
                    && a.join_map()[j] != channel_id) by {
                if a.join_map().contains_key(j) && a.join_map()[j] == channel_id {
                    assert(a.category_map()[channel_id].join_channel_id == Some(j));
                    assert(cat.join_channel_id == Some(j));
                }
                if a.join_map().contains_key(j) && a.join_map()[j] != channel_id {
                    if cat.join_channel_id == Some(j) {
                        assert(a.join_map()[j] == channel_id);
                    }
                }
            }
        }
    }

    /// Drops a guild and cascades over everything it owns: each of its
    /// categories is removed as `remove_category_channel` does, then the
    /// guild itself. A miss mutates nothing.
    pub fn remove_guild(&mut self, guild_id: u64)
        requires
            old(self).wf(),
        ensures
            final(self).wf(),
            !old(self).guild_map().contains_key(guild_id)
                ==> Self::same_state(*old(self), *final(self)),
            old(self).guild_map().contains_key(guild_id) ==> {
                &&& final(self).guild_map() =~= old(self).guild_map().remove(guild_id)
                &&& final(self).unavailable_set() == old(self).unavailable_set()
                &&& forall|c: u64|
                    #[trigger] final(self).category_map().contains_key(c) == (
                        old(self).category_map().contains_key(c)
                        && old(self).category_map()[c].guild_id != guild_id)
                &&& forall|c: u64| #[trigger] final(self).category_map().contains_key(c)
                    ==> final(self).category_map()[c] == old(self).category_map()[c]
                &&& forall|v: u64|
                    #[trigger] final(self).voice_map().contains_key(v) == (
                        old(self).voice_map().contains_key(v) && old(self).category_map()[
                        old(self).voice_map()[v].parent_id
                    ].guild_id != guild_id)
                &&& forall|v: u64| #[trigger] final(self).voice_map().contains_key(v)
                    ==> final(self).voice_map()[v] == old(self).voice_map()[v]
                &&& forall|j: u64|
                    #[trigger] final(self).join_map().contains_key(j) == (
                        old(self).join_map().contains_key(j) && old(self).category_map()[
                        old(self).join_map()[j]
                    ].guild_id != guild_id)
                &&& forall|j: u64| #[trigger] final(self).join_map().contains_key(j)
                    ==> final(self).join_map()[j] == old(self).join_map()[j]
                &&& forall|g: u64, u: u64|
                    #[trigger] final(self).presence_at(g, u) == if old(self).presence_at(g, u)
                        is Some && old(self).voice_map().contains_key(
                        old(self).presence_at(g, u)->0,
                    ) && old(self).category_map()[old(self).voice_map()[
                        old(self).presence_at(g, u)->0
                    ].parent_id].guild_id == guild_id {
                        None::<u64>
                    } else {
                        old(self).presence_at(g, u)
                    }
                &&& forall|g: u64, u: u64|
                    #[trigger] final(self).owner_at(g, u) == if old(self).owner_at(g, u)
                        is Some && old(self).voice_map().contains_key(
                        old(self).owner_at(g, u)->0,
                    ) && old(self).category_map()[old(self).voice_map()[
                        old(self).owner_at(g, u)->0
                    ].parent_id].guild_id == guild_id {
                        None::<u64>
                    } else {
                        old(self).owner_at(g, u)
                    }
            },
    {
        let cats = match self.guilds.get(&guild_id) {
            None => {
                proof {
                    Self::lemma_wf_same_maps(*old(self), *self);
                }
                return;
            },
            Some(g) => vec_copy(&g.category_channel_ids),
        };
        let ghost kids: Seq<u64> = cats@;
        proof {
            assert forall|c: u64| #[trigger] kids.contains(c) implies
                old(self).category_map().contains_key(c)
                    && old(self).category_map()[c].guild_id == guild_id by {
                assert(old(self).guild_map()[guild_id].category_channel_ids@.contains(c));
            }
        }
        let mut i: usize = 0;
        while i < cats.len()
            invariant
                old(self).wf(),
                self.wf(),
                old(self).guild_map().contains_key(guild_id),
                kids == old(self).guild_map()[guild_id].category_channel_ids@,
                cats@ == kids,
                i <= kids.len(),
                self.unavailable_guilds@ == old(self).unavailable_guilds@,
                self.guild_map().dom() == old(self).guild_map().dom(),
                forall|g: u64|
                    #[trigger] self.guild_map().contains_key(g) && g != guild_id
                    ==> self.guild_map()[g] == old(self).guild_map()[g],
                forall|c: u64|
                    #[trigger] self.category_map().contains_key(c) == (
                        old(self).category_map().contains_key(c) && !kids.take(
                            i as int,
                        ).contains(c)),
                forall|c: u64| #[trigger] self.category_map().contains_key(c)
                    ==> self.category_map()[c] == old(self).category_map()[c],
                forall|v: u64|
                    #[trigger] self.voice_map().contains_key(v) == (
                        old(self).voice_map().contains_key(v) && !kids.take(
                            i as int,
                        ).contains(old(self).voice_map()[v].parent_id)),
                forall|v: u64| #[trigger] self.voice_map().contains_key(v)
                    ==> self.voice_map()[v] == old(self).voice_map()[v],
                forall|j: u64|
                    #[trigger] self.join_map().contains_key(j) == (
                        old(self).join_map().contains_key(j) && !kids.take(
                            i as int,
                        ).contains(old(self).join_map()[j])),
                forall|j: u64| #[trigger] self.join_map().contains_key(j)
                    ==> self.join_map()[j] == old(self).join_map()[j],
                forall|g: u64, u: u64|
                    #[trigger] self.presence_at(g, u) == if old(self).presence_at(g, u)
                        is Some && old(self).voice_map().contains_key(
                        old(self).presence_at(g, u)->0,
                    ) && kids.take(i as int).contains(old(self).voice_map()[
                        old(self).presence_at(g, u)->0
                    ].parent_id) {
                        None::<u64>
                    } else {
                        old(self).presence_at(g, u)
                    },
                forall|g: u64, u: u64|
                    #[trigger] self.owner_at(g, u) == if old(self).owner_at(g, u) is Some
                        && old(self).voice_map().contains_key(old(self).owner_at(g, u)->0)
                        && kids.take(i as int).contains(old(self).voice_map()[
                        old(self).owner_at(g, u)->0
                    ].parent_id) {
                        None::<u64>
                    } else {
                        old(self).owner_at(g, u)
                    },
            decreases kids.len() - i,
        {
            let child = cats[i];
            let ghost s1 = *self;
            proof {
                assert(kids.take(i as int + 1) =~= kids.take(i as int).push(child));
                assert(kids[i as int] == child);
                assert(kids.contains(child));
                assert(old(self).category_map().contains_key(child));
                assert(old(self).category_map()[child].guild_id == guild_id);
                if kids.take(i as int).contains(child) {
                    let j = choose|j: int| 0 <= j < i && #[trigger] kids.take(i as int)[j]
                        == child;
                    assert(kids[j] == kids[i as int]);
                    assert(old(self).guild_map()[guild_id]
                        .category_channel_ids@.no_duplicates());
                    assert(false);
                }
                assert(s1.category_map().contains_key(child));
            }
            self.remove_category_channel(child);
            proof {
                let b = *self;
                assert forall|x: u64|
                    #[trigger] kids.take(i as int + 1).contains(x) == (kids.take(
                        i as int,
                    ).contains(x) || x == child) by {
                    if kids.take(i as int + 1).contains(x) {
                        let j = choose|j: int|
                            0 <= j <= i && #[trigger] kids.take(i as int + 1)[j] == x;
                        if j < i {
                            assert(kids.take(i as int)[j] == x);
                        }
                    }
                    if kids.take(i as int).contains(x) {
                        let j = choose|j: int|
                            0 <= j < i && #[trigger] kids.take(i as int)[j] == x;
                        assert(kids.take(i as int + 1)[j] == x);
                    }
                    if x == child {
                        assert(kids.take(i as int + 1)[i as int] == x);
                    }
                }
                assert forall|g: u64|
                    #[trigger] b.guild_map().contains_key(g) && g != guild_id
                    implies b.guild_map()[g] == old(self).guild_map()[g] by {
                    assert(s1.category_map()[child].guild_id == guild_id);
                    assert(b.guild_map()[g] == s1.guild_map()[g]);
                }
                assert forall|c: u64|
                    #[trigger] b.category_map().contains_key(c) == (
                        old(self).category_map().contains_key(c) && !kids.take(
                            i as int + 1,
                        ).contains(c)) by {
                    assert(b.category_map().contains_key(c) == (
                        s1.category_map().contains_key(c) && c != child));
                }
                assert forall|v: u64|
                    #[trigger] b.voice_map().contains_key(v) == (
                        old(self).voice_map().contains_key(v) && !kids.take(
                            i as int + 1,
                        ).contains(old(self).voice_map()[v].parent_id)) by {
                    assert(b.voice_map().contains_key(v) == (s1.voice_map().contains_key(v)
                        && s1.voice_map()[v].parent_id != child));
                    if s1.voice_map().contains_key(v) {
                        assert(s1.voice_map()[v] == old(self).voice_map()[v]);
                    }
                }
                assert forall|j: u64|
                    #[trigger] b.join_map().contains_key(j) == (
                        old(self).join_map().contains_key(j) && !kids.take(
                            i as int + 1,
                        ).contains(old(self).join_map()[j])) by {
                    assert(b.join_map().contains_key(j) == (s1.join_map().contains_key(j)
                        && s1.join_map()[j] != child));
                    if s1.join_map().contains_key(j) {
                        assert(s1.join_map()[j] == old(self).join_map()[j]);
                    }
                }
                assert forall|g: u64, u: u64|
                    #[trigger] b.presence_at(g, u) == if old(self).presence_at(g, u) is Some
                        && old(self).voice_map().contains_key(old(self).presence_at(g, u)->0)
                        && kids.take(i as int + 1).contains(old(self).voice_map()[
                        old(self).presence_at(g, u)->0
                    ].parent_id) {
                        None::<u64>
                    } else {
                        old(self).presence_at(g, u)
                    } by {
                    assert(b.presence_at(g, u) == if s1.presence_at(g, u) is Some
                        && s1.voice_map().contains_key(s1.presence_at(g, u)->0)
                        && s1.voice_map()[s1.presence_at(g, u)->0].parent_id == child {
                        None::<u64>
                    } else {
                        s1.presence_at(g, u)
                    });
                    if old(self).presence_at(g, u) is Some {
                        let c = old(self).presence_at(g, u)->0;
                        if old(self).voice_map().contains_key(c) {
                            if s1.voice_map().contains_key(c) {
                                assert(s1.voice_map()[c] == old(self).voice_map()[c]);
                            }
                        }
                    }
                }
                assert forall|g: u64, u: u64|
                    #[trigger] b.owner_at(g, u) == if old(self).owner_at(g, u) is Some
                        && old(self).voice_map().contains_key(old(self).owner_at(g, u)->0)
                        && kids.take(i as int + 1).contains(old(self).voice_map()[
                        old(self).owner_at(g, u)->0
                    ].parent_id) {
                        None::<u64>
                    } else {
                        old(self).owner_at(g, u)
                    } by {
                    assert(b.owner_at(g, u) == if s1.owner_at(g, u) is Some
                        && s1.voice_map().contains_key(s1.owner_at(g, u)->0)
                        && s1.voice_map()[s1.owner_at(g, u)->0].parent_id == child {
                        None::<u64>
                    } else {
                        s1.owner_at(g, u)
                    });
                    if old(self).owner_at(g, u) is Some {
                        let c = old(self).owner_at(g, u)->0;
                        if old(self).voice_map().contains_key(c) {
                            if s1.voice_map().contains_key(c) {
                                assert(s1.voice_map()[c] == old(self).voice_map()[c]);
                            }
                        }
                    }
                }
            }
            i += 1;
        }
        proof {
            assert(kids.take(kids.len() as int) =~= kids);
        }
        let ghost s2 = *self;
        self.guilds.remove(&guild_id);
        proof {
            let a = *old(self);
            let b = *self;
            assert(b.guilds@ =~= s2.guilds@.remove(guild_id));
            assert(b.guild_map() =~= a.guild_map().remove(guild_id));
            assert forall|g: u64, u: u64|
                #[trigger] b.presence_at(g, u) == s2.presence_at(g, u) by {}
            assert forall|g: u64, u: u64|
                #[trigger] b.owner_at(g, u) == s2.owner_at(g, u) by {}
            assert forall|c: u64|
                #[trigger] a.category_map().contains_key(c) implies kids.contains(c) == (
                    a.category_map()[c].guild_id == guild_id) by {
                if a.category_map()[c].guild_id == guild_id {
                    assert(a.guild_map()[guild_id].category_channel_ids@.contains(c));
                }
                if kids.contains(c) {
                    assert(a.guild_map()[guild_id].category_channel_ids@.contains(c));
                }
            }
            assert(b.guild_cats_wf()) by {
                assert forall|g: u64| #[trigger] b.guild_map().contains_key(g) implies {
                    &&& b.guild_map()[g].id == g
                    &&& b.guild_map()[g].category_channel_ids@.no_duplicates()
                } by {
                    assert(a.guild_map().contains_key(g) && g != guild_id);
                    assert(b.guild_map()[g] == a.guild_map()[g]);
                }
                assert forall|g: u64, c: u64|
                    b.guild_map().contains_key(g)
                        && #[trigger] b.guild_map()[g].category_channel_ids@.contains(c)
                    implies {
                    &&& b.category_map().contains_key(c)
                    &&& b.category_map()[c].guild_id == g
                } by {
                    assert(g != guild_id);
                    assert(a.guild_map()[g].category_channel_ids@.contains(c));
                    assert(a.category_map().contains_key(c)
                        && a.category_map()[c].guild_id == g);
                    assert(!kids.contains(c));
                    assert(!kids.take(kids.len() as int).contains(c));
                }
                assert forall|c: u64| #[trigger] b.category_map().contains_key(c) implies {
                    &&& b.category_map()[c].id == c
                    &&& b.guild_map().contains_key(b.category_map()[c].guild_id)
                    &&& b.guild_map()[b.category_map()[c].guild_id]
                        .category_channel_ids@.contains(c)
                } by {
                    assert(a.category_map().contains_key(c) && !kids.contains(c));
                    assert(a.category_map()[c].guild_id != guild_id);
                    assert(b.guild_map()[a.category_map()[c].guild_id]
                        == a.guild_map()[a.category_map()[c].guild_id]);
                }
            }
            assert(b.cat_voices_wf()) by {
                assert forall|c: u64, v: u64|
                    b.category_map().contains_key(c)
                        && #[trigger] b.category_map()[c].voice_channel_ids@.contains(v)
                    implies {
                    &&& b.voice_map().contains_key(v)
                    &&& b.voice_map()[v].parent_id == c
                } by {
                    assert(a.category_map().contains_key(c) && !kids.contains(c));
                    assert(a.category_map()[c].voice_channel_ids@.contains(v));
                    assert(a.voice_map().contains_key(v) && a.voice_map()[v].parent_id == c);
                }
                assert forall|v: u64| #[trigger] b.voice_map().contains_key(v) implies {
                    &&& b.voice_map()[v].id == v
                    &&& b.voice_map()[v].connected_user_ids@.no_duplicates()
                    &&& b.category_map().contains_key(b.voice_map()[v].parent_id)
                    &&& b.category_map()[b.voice_map()[v].parent_id]
                        .voice_channel_ids@.contains(v)
                } by {
                    assert(a.voice_map().contains_key(v));
                    assert(!kids.contains(a.voice_map()[v].parent_id));
                    assert(a.category_map().contains_key(a.voice_map()[v].parent_id));
                }
            }
            assert(b.presence_wf()) by {
                assert forall|g: u64, u: u64|
                    #[trigger] b.presence_at(g, u) is Some implies {
                    let c = b.presence_at(g, u)->0;
                    &&& b.voice_map().contains_key(c)
                    &&& b.voice_map()[c].guild_id == g
                    &&& b.voice_map()[c].connected_user_ids@.contains(u)
                } by {
                    let c = b.presence_at(g, u)->0;
                    assert(a.presence_at(g, u) == Some(c));
                    assert(a.voice_map().contains_key(c));
                    assert(b.voice_map()[c] == a.voice_map()[c]);
                    assert(a.voice_map()[c].connected_user_ids@.contains(u));
                }
                assert forall|v: u64, u: u64|
                    b.voice_map().contains_key(v)
                        && #[trigger] b.voice_map()[v].connected_user_ids@.contains(u)
                    implies b.presence_at(b.voice_map()[v].guild_id, u) == Some(v) by {
                    assert(a.voice_map().contains_key(v));
                    assert(a.voice_map()[v].connected_user_ids@.contains(u));
                    assert(a.presence_at(a.voice_map()[v].guild_id, u) == Some(v));
                    assert(!kids.contains(a.voice_map()[v].parent_id));
                    assert(!kids.take(kids.len() as int).contains(a.voice_map()[v].parent_id));
                }
            }
            assert(b.owners_wf()) by {
                assert forall|g: u64, u: u64| #[trigger] b.owner_at(g, u) is Some implies {
                    let c = b.owner_at(g, u)->0;
                    &&& b.voice_map().contains_key(c)
                    &&& b.voice_map()[c].guild_id == g
                    &&& b.voice_map()[c].owner_id == Some(u)
                } by {
                    let c = b.owner_at(g, u)->0;
                    assert(a.owner_at(g, u) == Some(c));
                    assert(a.voice_map().contains_key(c));
                    assert(b.voice_map()[c] == a.voice_map()[c]);
                }
                assert forall|v: u64|
                    #[trigger] b.voice_map().contains_key(v)
                        && b.voice_map()[v].owner_id is Some
                    implies b.owner_at(
                        b.voice_map()[v].guild_id,
                        b.voice_map()[v].owner_id->0,
                    ) == Some(v) by {
                    assert(a.voice_map().contains_key(v));
                    assert(a.owner_at(
                        a.voice_map()[v].guild_id,
                        a.voice_map()[v].owner_id->0,
                    ) == Some(v));
                    assert(!kids.contains(a.voice_map()[v].parent_id));
                    assert(!kids.take(kids.len() as int).contains(a.voice_map()[v].parent_id));
                }
            }
            assert(b.joins_wf()) by {
                assert forall|j: u64| #[trigger] b.join_map().contains_key(j) implies {
                    let c = b.join_map()[j];
                    &&& b.category_map().contains_key(c)
                    &&& b.category_map()[c].join_channel_id == Some(j)
                    &&& !b.voice_map().contains_key(j)
                } by {
                    assert(a.join_map().contains_key(j));
                    assert(b.join_map()[j] == a.join_map()[j]);
                    let c = a.join_map()[j];
                    assert(a.category_map().contains_key(c));
                    assert(!kids.contains(c));
                    assert(b.category_map()[c] == a.category_map()[c]);
                }
                assert forall|c: u64|
                    #[trigger] b.category_map().contains_key(c)
                        && b.category_map()[c].join_channel_id is Some implies {
                    let j = b.category_map()[c].join_channel_id->0;
                    &&& b.join_map().contains_key(j)
                    &&& b.join_map()[j] == c
                } by {
                    assert(a.category_map().contains_key(c));
                    assert(b.category_map()[c] == a.category_map()[c]);
                    let j = a.category_map()[c].join_channel_id->0;
                    assert(a.join_map().contains_key(j) && a.join_map()[j] == c);
                    assert(!kids.contains(c));
                    assert(!kids.take(kids.len() as int).contains(a.join_map()[j]));
                }
            }
            assert forall|c: u64|
                #[trigger] b.category_map().contains_key(c) == (
                    a.category_map().contains_key(c) && a.category_map()[c].guild_id
                        != guild_id) by {}
            assert forall|v: u64|
                #[trigger] b.voice_map().contains_key(v) == (a.voice_map().contains_key(v)
                    && a.category_map()[a.voice_map()[v].parent_id].guild_id != guild_id) by {
                if a.voice_map().contains_key(v) {
                    assert(a.category_map().contains_key(a.voice_map()[v].parent_id));
                }
            }
            assert forall|j: u64|
                #[trigger] b.join_map().contains_key(j) == (a.join_map().contains_key(j)
                    && a.category_map()[a.join_map()[j]].guild_id != guild_id) by {
                if a.join_map().contains_key(j) {
                    assert(a.category_map().contains_key(a.join_map()[j]));
                }
            }
            assert forall|g: u64, u: u64|
                #[trigger] b.presence_at(g, u) == if a.presence_at(g, u) is Some
                    && a.voice_map().contains_key(a.presence_at(g, u)->0)
                    && a.category_map()[a.voice_map()[a.presence_at(g, u)->0].parent_id]
                    .guild_id == guild_id {
                    None::<u64>
                } else {
                    a.presence_at(g, u)
                } by {
                if a.presence_at(g, u) is Some {
                    let c = a.presence_at(g, u)->0;
                    if a.voice_map().contains_key(c) {
                        assert(a.category_map().contains_key(a.voice_map()[c].parent_id));
                        assert(kids.contains(a.voice_map()[c].parent_id) == (
                            a.category_map()[a.voice_map()[c].parent_id].guild_id
                                == guild_id));
                    }
                }
            }
            assert forall|g: u64, u: u64|
                #[trigger] b.owner_at(g, u) == if a.owner_at(g, u) is Some
                    && a.voice_map().contains_key(a.owner_at(g, u)->0)
                    && a.category_map()[a.voice_map()[a.owner_at(g, u)->0].parent_id]
                    .guild_id == guild_id {
                    None::<u64>
                } else {
                    a.owner_at(g, u)
                } by {
                if a.owner_at(g, u) is Some {
                    let c = a.owner_at(g, u)->0;
                    if a.voice_map().contains_key(c) {
                        assert(a.category_map().contains_key(a.voice_map()[c].parent_id));
                        assert(kids.contains(a.voice_map()[c].parent_id) == (
                            a.category_map()[a.voice_map()[c].parent_id].guild_id
                                == guild_id));
                    }
                }
            }
        }
    }

    /// Caches a newly known voice channel under its parent category, with
    /// the users connected to it and, optionally, its owner. The insert is
    /// dropped when the channel is already cached, when it is some
    /// category's trigger channel, or when the parent category is unknown.
    /// Each listed user's presence moves here from wherever it was in this
    /// guild; an owner who owned another channel in the guild is
    /// retargeted to this one, and that other channel loses its owner.
    /// Whether a voice-channel insert applies: the id must be fresh and not
    /// a trigger, and the parent must be a cached category of this guild.
    pub open spec fn voice_insertable(self, guild_id: u64, id: u64, parent_id: u64) -> bool {
        &&& !self.voice_map().contains_key(id)
        &&& !self.join_map().contains_key(id)
        &&& self.category_map().contains_key(parent_id)
        &&& self.category_map()[parent_id].guild_id == guild_id
    }

    pub fn insert_voice_channel(
        &mut self,
        connected_user_ids: Vec<u64>,
        guild_id: u64,
        id: u64,
        owner_id: Option<u64>,
        panel_message_id: Option<u64>,
        parent_id: u64,
        permission_overwrites: Vec<Overwrite>,
    )
        requires
            old(self).wf(),
        ensures
            final(self).wf(),
            !old(self).voice_insertable(guild_id, id, parent_id)
                ==> Self::same_state(*old(self), *final(self)),
            old(self).voice_insertable(guild_id, id, parent_id) ==> {
                &&& final(self).guild_map() == old(self).guild_map()
                &&& final(self).join_map() == old(self).join_map()
                &&& final(self).unavailable_set() == old(self).unavailable_set()
                &&& final(self).voice_map().dom() == old(self).voice_map().dom().insert(id)
                &&& final(self).voice_map()[id].guild_id == guild_id
                &&& final(self).voice_map()[id].id == id
                &&& final(self).voice_map()[id].owner_id == owner_id
                &&& final(self).voice_map()[id].panel_message_id == panel_message_id
                &&& final(self).voice_map()[id].parent_id == parent_id
                &&& final(self).voice_map()[id].permission_overwrites@
                    == permission_overwrites@
                &&& forall|u: u64|
                    #[trigger] final(self).voice_map()[id].connected_user_ids@.contains(u)
                        == connected_user_ids@.contains(u)
                &&& forall|v: u64|
                    #[trigger] final(self).voice_map().contains_key(v) && v != id ==> {
                    let av = old(self).voice_map()[v];
                    let bv = final(self).voice_map()[v];
                    &&& bv.guild_id == av.guild_id
                    &&& bv.id == av.id
                    &&& bv.panel_message_id == av.panel_message_id
                    &&& bv.parent_id == av.parent_id
                    &&& bv.permission_overwrites@ == av.permission_overwrites@
                    &&& bv.owner_id == if av.guild_id == guild_id && owner_id is Some
                        && av.owner_id == owner_id {
                        None::<u64>
                    } else {
                        av.owner_id
                    }
                    &&& forall|u: u64|
                        #[trigger] bv.connected_user_ids@.contains(u) == (
                            av.connected_user_ids@.contains(u) && !(av.guild_id == guild_id
                                && connected_user_ids@.contains(u)))
                }
                &&& forall|g: u64, u: u64|
                    #[trigger] final(self).presence_at(g, u) == if g == guild_id
                        && connected_user_ids@.contains(u) {
                        Some(id)
                    } else {
                        old(self).presence_at(g, u)
                    }
                &&& forall|g: u64, u: u64|
                    #[trigger] final(self).owner_at(g, u) == if g == guild_id && owner_id
                        == Some(u) {
                        Some(id)
                    } else {
                        old(self).owner_at(g, u)
                    }
                &&& final(self).category_map().dom() == old(self).category_map().dom()
                &&& forall|c: u64|
                    #[trigger] final(self).category_map().contains_key(c) && c != parent_id
                    ==> final(self).category_map()[c] == old(self).category_map()[c]
                &&& final(self).category_map()[parent_id].guild_id
                    == old(self).category_map()[parent_id].guild_id
                &&& final(self).category_map()[parent_id].id == parent_id
                &&& final(self).category_map()[parent_id].join_channel_id
                    == old(self).category_map()[parent_id].join_channel_id
                &&& final(self).category_map()[parent_id].permission_overwrites@
                    == old(self).category_map()[parent_id].permission_overwrites@
                &&& final(self).category_map()[parent_id].voice_channel_ids@
                    == old(self).category_map()[parent_id].voice_channel_ids@.push(id)
            },
    {
        if self.voice_channels.contains_key(&id) {
            proof {
                Self::lemma_wf_same_maps(*old(self), *self);
            }
            return;
        }
        if self.join_channels.contains_key(&id) {
            proof {
                Self::lemma_wf_same_maps(*old(self), *self);
            }
            return;
        }
        match self.category_channels.get(&parent_id) {
            None => {
                proof {
                    Self::lemma_wf_same_maps(*old(self), *self);
                }
                return;
            },
            Some(cat) => {
                if cat.guild_id != guild_id {
                    proof {
                        Self::lemma_wf_same_maps(*old(self), *self);
                    }
                    return;
                }
            },
        }
        // Pull each listed user out of any previous channel in this guild.
        let mut users: Vec<u64> = Vec::new();
        let mut i: usize = 0;
        while i < connected_user_ids.len()
            invariant
                old(self).wf(),
                self.wf(),
                old(self).voice_insertable(guild_id, id, parent_id),
                i <= connected_user_ids@.len(),
                users@.no_duplicates(),
                forall|u: u64|
                    #[trigger] users@.contains(u) == connected_user_ids@.take(
                        i as int,
                    ).contains(u),
                self.guilds@ == old(self).guilds@,
                self.category_channels@ == old(self).category_channels@,
                self.join_channels@ == old(self).join_channels@,
                self.unavailable_guilds@ == old(self).unavailable_guilds@,
                forall|g: u64, u: u64|
                    #[trigger] self.owner_at(g, u) == old(self).owner_at(g, u),
                self.voice_map().dom() == old(self).voice_map().dom(),
                forall|v: u64| #[trigger] self.voice_map().contains_key(v) ==> {
                    let av = old(self).voice_map()[v];
                    let bv = self.voice_map()[v];
                    &&& bv.guild_id == av.guild_id
                    &&& bv.id == av.id
                    &&& bv.owner_id == av.owner_id
                    &&& bv.panel_message_id == av.panel_message_id
                    &&& bv.parent_id == av.parent_id
                    &&& bv.permission_overwrites@ == av.permission_overwrites@
                    &&& forall|u: u64|
                        #[trigger] bv.connected_user_ids@.contains(u) == (
                            av.connected_user_ids@.contains(u) && !(av.guild_id == guild_id
                                && users@.contains(u)))
                },
                forall|g: u64, u: u64|
                    #[trigger] self.presence_at(g, u) == if g == guild_id
                        && users@.contains(u) {
                        None::<u64>
                    } else {
                        old(self).presence_at(g, u)
                    },
            decreases connected_user_ids@.len() - i,
        {
            let u = connected_user_ids[i];
            let ghost users0: Seq<u64> = users@;
            proof {
                assert(connected_user_ids@.take(i as int + 1)
                    =~= connected_user_ids@.take(i as int).push(u));
                assert(connected_user_ids@.take(i as int + 1)[i as int] == u);
            }
            if !vec_contains(&users, u) {
                self.remove_voice_state(guild_id, u);
                users.push(u);
                proof {
                    assert(users@ == users0.push(u));
                    assert forall|u2: u64|
                        #[trigger] users@.contains(u2) == (users0.contains(u2) || u2
                            == u) by {
                        if users@.contains(u2) {
                            let j = choose|j: int|
                                0 <= j < users@.len() && users@[j] == u2;
                            if j < users0.len() {
                                assert(users0[j] == u2);
                            }
                        }
                        if users0.contains(u2) {
                            let j = choose|j: int|
                                0 <= j < users0.len() && users0[j] == u2;
                            assert(users@[j] == u2);
                        }
                        if u2 == u {
                            assert(users@[users@.len() - 1] == u);
                        }
                    }
                }
            } else {
                proof {
                    assert(users@ == users0);
                }
            }
            proof {
                assert forall|u2: u64|
                    #[trigger] users@.contains(u2) == connected_user_ids@.take(
                        i as int + 1,
                    ).contains(u2) by {
                    if connected_user_ids@.take(i as int + 1).contains(u2) {
                        let j = choose|j: int|
                            0 <= j <= i && #[trigger] connected_user_ids@.take(
                                i as int + 1,
                            )[j] == u2;
                        if j < i {
                            assert(connected_user_ids@.take(i as int)[j] == u2);
                            assert(users0.contains(u2));
                        }
                    }
                    if connected_user_ids@.take(i as int).contains(u2) {
                        let j = choose|j: int|
                            0 <= j < i && #[trigger] connected_user_ids@.take(i as int)[j]
                                == u2;
                        assert(connected_user_ids@.take(i as int + 1)[j] == u2);
                    }
                }
            }
            i += 1;
        }
        proof {
            assert(connected_user_ids@.take(connected_user_ids@.len() as int)
                =~= connected_user_ids@);
        }
        let ghost s0 = *self;
        // Point each listed user's presence at this channel.
        let mut j: usize = 0;
        while j < users.len()
            invariant
                j <= users@.len(),
                users@.no_duplicates(),
                self.guilds@ == s0.guilds@,
                self.category_channels@ == s0.category_channels@,
                self.join_channels@ == s0.join_channels@,
                self.unavailable_guilds@ == s0.unavailable_guilds@,
                self.voice_channel_owners@ == s0.voice_channel_owners@,
                self.voice_channels@ == s0.voice_channels@,
                forall|g: u64, u: u64|
                    #[trigger] self.presence_at(g, u) == if g == guild_id
                        && users@.take(j as int).contains(u) {
                        Some(id)
                    } else {
                        s0.presence_at(g, u)
                    },
            decreases users@.len() - j,
        {
            let u = users[j];
            let ghost sb = *self;
            self.voice_states.insert(pack_key(guild_id, u), id);
            proof {
                assert(users@.take(j as int + 1) =~= users@.take(j as int).push(u));
                assert forall|g: u64, u2: u64|
                    #[trigger] self.presence_at(g, u2) == if g == guild_id && users@.take(
                        j as int + 1,
                    ).contains(u2) {
                        Some(id)
                    } else {
                        s0.presence_at(g, u2)
                    } by {
                    if pk(g, u2) == pk(guild_id, u) {
                        lemma_pk_injective(g, u2, guild_id, u);
                        assert(self.presence_at(g, u2) == Some(id));
                        assert(users@.take(j as int + 1)[j as int] == u);
                        assert(users@.take(j as int + 1).contains(u));
                    } else {
                        assert(self.presence_at(g, u2) == sb.presence_at(g, u2));
                        assert(sb.presence_at(g, u2) == if g == guild_id && users@.take(
                            j as int,
                        ).contains(u2) {
                            Some(id)
                        } else {
                            s0.presence_at(g, u2)
                        });
                        if users@.take(j as int + 1).contains(u2) && !users@.take(
                            j as int,
                        ).contains(u2) {
                            let k = choose|k: int|
                                0 <= k <= j && #[trigger] users@.take(j as int + 1)[k]
                                    == u2;
                            if k < j {
                                assert(users@.take(j as int)[k] == u2);
                            } else {
                                assert(u2 == u);
                            }
                        }
                        if users@.take(j as int).contains(u2) {
                            let k = choose|k: int|
                                0 <= k < j && #[trigger] users@.take(j as int)[k] == u2;
                            assert(users@.take(j as int + 1)[k] == u2);
                        }
                    }
                }
            }
            j += 1;
        }
        proof {
            assert(users@.take(users@.len() as int) =~= users@);
        }
        let ghost s1 = *self;
        proof {
            assert forall|g: u64, u: u64|
                #[trigger] s1.presence_at(g, u) == if g == guild_id
                    && connected_user_ids@.contains(u) {
                    Some(id)
                } else {
                    old(self).presence_at(g, u)
                } by {
                assert(s1.presence_at(g, u) == if g == guild_id && users@.contains(u) {
                    Some(id)
                } else {
                    s0.presence_at(g, u)
                });
                assert(s0.presence_at(g, u) == if g == guild_id && users@.contains(u) {
                    None::<u64>
                } else {
                    old(self).presence_at(g, u)
                });
            }
            assert forall|g: u64, u: u64|
                #[trigger] s1.owner_at(g, u) == old(self).owner_at(g, u) by {
                assert(s1.owner_at(g, u) == s0.owner_at(g, u));
            }
        }
        // Retarget the owner's index entry onto this channel.
        if let Some(u0) = owner_id {
            match self.voice_channel_owners.remove(&pack_key(guild_id, u0)) {
                Some(other_id) => {
                    proof {
                        assert(s1.owner_at(guild_id, u0) == Some(other_id));
                        assert(old(self).owner_at(guild_id, u0) == Some(other_id));
                        assert(old(self).voice_map().contains_key(other_id));
                        assert(s1.voice_map().contains_key(other_id));
                        assert(other_id != id);
                    }
                    match self.voice_channels.remove(&other_id) {
                        Some(other) => {
                            self.voice_channels.insert(
                                other_id,
                                CachedVoiceChannel { owner_id: None, ..other },
                            );
                        },
                        None => {
                            proof {
                                assert(false);
                            }
                        },
                    }
                },
                None => {},
            }
            self.voice_channel_owners.insert(pack_key(guild_id, u0), id);
        }
        let ghost s2 = *self;
        // Register under the parent category.
        match self.category_channels.remove(&parent_id) {
            Some(mut cat) => {
                proof {
                    if cat.voice_channel_ids@.contains(id) {
                        assert(old(self).category_map()[parent_id]
                            .voice_channel_ids@.contains(id));
                        assert(old(self).voice_map().contains_key(id));
                        assert(false);
                    }
                }
                cat.voice_channel_ids.push(id);
                self.category_channels.insert(parent_id, cat);
            },
            None => {
                proof {
                    assert(false);
                }
            },
        }
        self.voice_channels.insert(
            id,
            CachedVoiceChannel {
                connected_user_ids: users,
                guild_id,
                id,
                owner_id,
                panel_message_id,
                parent_id,
                permission_overwrites,
            },
        );
        proof {
            let a = *old(self);
            let b = *self;
            let ghost retarget: Option<u64> = if owner_id is Some && a.owner_at(
                guild_id,
                owner_id->0,
            ) is Some {
                a.owner_at(guild_id, owner_id->0)
            } else {
                None
            };
            assert(b.voice_map().dom() =~= a.voice_map().dom().insert(id)) by {
                if retarget is Some {
                    assert(a.voice_map().contains_key(retarget->0));
                }
            }
            assert(b.category_map().dom() =~= a.category_map().dom());
            assert(b.category_map()[parent_id].voice_channel_ids@
                == a.category_map()[parent_id].voice_channel_ids@.push(id));
            let pushed = a.category_map()[parent_id].voice_channel_ids@.push(id);
            assert forall|v: u64| #[trigger] pushed.contains(v)
                implies a.category_map()[parent_id].voice_channel_ids@.contains(v) || v
                    == id by {
                let s = a.category_map()[parent_id].voice_channel_ids@;
                let j = choose|j: int| 0 <= j < pushed.len() && pushed[j] == v;
                if j < s.len() {
                    assert(s[j] == v);
                }
            }
            assert(pushed[pushed.len() - 1] == id);
            assert(pushed.contains(id));
            assert forall|v: u64|
                a.category_map()[parent_id].voice_channel_ids@.contains(v)
                implies #[trigger] pushed.contains(v) by {
                let s = a.category_map()[parent_id].voice_channel_ids@;
                let j = choose|j: int| 0 <= j < s.len() && s[j] == v;
                assert(pushed[j] == v);
            }
            assert forall|g: u64, u: u64|
                #[trigger] b.presence_at(g, u) == if g == guild_id
                    && connected_user_ids@.contains(u) {
                    Some(id)
                } else {
                    a.presence_at(g, u)
                } by {
                assert(b.presence_at(g, u) == s1.presence_at(g, u));
            }
            assert forall|g: u64, u: u64|
                #[trigger] b.owner_at(g, u) == if g == guild_id && owner_id == Some(u) {
                    Some(id)
                } else {
                    a.owner_at(g, u)
                } by {
                assert(s1.owner_at(g, u) == a.owner_at(g, u));
                if owner_id is Some {
                    if pk(g, u) == pk(guild_id, owner_id->0) {
                        lemma_pk_injective(g, u, guild_id, owner_id->0);
                    }
                }
            }
            assert forall|u: u64|
                #[trigger] b.voice_map()[id].connected_user_ids@.contains(u)
                    == connected_user_ids@.contains(u) by {}
            assert(b.guild_cats_wf()) by {
                assert forall|g: u64, c: u64|
                    b.guild_map().contains_key(g)
                        && #[trigger] b.guild_map()[g].category_channel_ids@.contains(c)
                    implies {
                    &&& b.category_map().contains_key(c)
                    &&& b.category_map()[c].guild_id == g
                } by {
                    assert(a.guild_map()[g].category_channel_ids@.contains(c));
                }
                assert forall|c: u64| #[trigger] b.category_map().contains_key(c) implies {
                    &&& b.category_map()[c].id == c
                    &&& b.guild_map().contains_key(b.category_map()[c].guild_id)
                    &&& b.guild_map()[b.category_map()[c].guild_id]
                        .category_channel_ids@.contains(c)
                } by {
                    assert(a.category_map().contains_key(c));
                }
            }
            assert(b.cat_voices_wf()) by {
                assert forall|c: u64, v: u64|
                    b.category_map().contains_key(c)
                        && #[trigger] b.category_map()[c].voice_channel_ids@.contains(v)
                    implies {
                    &&& b.voice_map().contains_key(v)
                    &&& b.voice_map()[v].parent_id == c
                } by {
                    if c == parent_id {
                        if v != id {
                            assert(a.category_map()[c].voice_channel_ids@.contains(v));
                        }
                    } else {
                        assert(a.category_map()[c].voice_channel_ids@.contains(v));
                        assert(a.voice_map().contains_key(v));
                        assert(v != id);
                    }
                }
                assert forall|v: u64| #[trigger] b.voice_map().contains_key(v) implies {
                    &&& b.voice_map()[v].id == v
                    &&& b.voice_map()[v].connected_user_ids@.no_duplicates()
                    &&& b.category_map().contains_key(b.voice_map()[v].parent_id)
                    &&& b.category_map()[b.voice_map()[v].parent_id]
                        .voice_channel_ids@.contains(v)
                } by {
                    if v != id {
                        assert(a.voice_map().contains_key(v));
                        assert(a.category_map()[a.voice_map()[v].parent_id]
                            .voice_channel_ids@.contains(v));
                        assert(b.voice_map()[v].connected_user_ids@
                            == s1.voice_map()[v].connected_user_ids@);
                        assert(s1.voice_map()[v].connected_user_ids@.no_duplicates());
                    }
                }
            }
            assert(b.presence_wf()) by {
                assert forall|g: u64, u: u64|
                    #[trigger] b.presence_at(g, u) is Some implies {
                    let c = b.presence_at(g, u)->0;
                    &&& b.voice_map().contains_key(c)
                    &&& b.voice_map()[c].guild_id == g
                    &&& b.voice_map()[c].connected_user_ids@.contains(u)
                } by {
                    let c = b.presence_at(g, u)->0;
                    if g == guild_id && connected_user_ids@.contains(u) {
                        assert(c == id);
                        assert(b.voice_map()[id].connected_user_ids@.contains(u));
                    } else {
                        assert(a.presence_at(g, u) == Some(c));
                        assert(c != id);
                        assert(a.voice_map().contains_key(c));
                        assert(a.voice_map()[c].guild_id == g);
                        assert(a.voice_map()[c].connected_user_ids@.contains(u));
                        assert(s1.voice_map()[c].connected_user_ids@.contains(u));
                        assert(b.voice_map()[c].connected_user_ids@
                            == s1.voice_map()[c].connected_user_ids@);
                    }
                }
                assert forall|v: u64, u: u64|
                    b.voice_map().contains_key(v)
                        && #[trigger] b.voice_map()[v].connected_user_ids@.contains(u)
                    implies b.presence_at(b.voice_map()[v].guild_id, u) == Some(v) by {
                    if v == id {
                        assert(connected_user_ids@.contains(u));
                        assert(b.presence_at(guild_id, u) == Some(id));
                    } else {
                        assert(s1.voice_map()[v].connected_user_ids@.contains(u));
                        assert(a.voice_map()[v].connected_user_ids@.contains(u)
                            && !(a.voice_map()[v].guild_id == guild_id
                                && connected_user_ids@.contains(u)));
                        assert(a.presence_at(a.voice_map()[v].guild_id, u) == Some(v));
                    }
                }
            }
            assert(b.owners_wf()) by {
                assert forall|g: u64, u: u64| #[trigger] b.owner_at(g, u) is Some implies {
                    let c = b.owner_at(g, u)->0;
                    &&& b.voice_map().contains_key(c)
                    &&& b.voice_map()[c].guild_id == g
                    &&& b.voice_map()[c].owner_id == Some(u)
                } by {
                    let c = b.owner_at(g, u)->0;
                    if g == guild_id && owner_id == Some(u) {
                        assert(c == id);
                    } else {
                        assert(a.owner_at(g, u) == Some(c));
                        assert(c != id);
                        assert(a.voice_map()[c].owner_id == Some(u));
                        if retarget == Some(c) {
                            assert(a.voice_map()[c].owner_id == Some(owner_id->0));
                            assert(a.voice_map()[c].guild_id == guild_id);
                            assert(g == guild_id && owner_id == Some(u));
                            assert(false);
                        }
                        assert(b.voice_map()[c].owner_id == a.voice_map()[c].owner_id);
                    }
                }
                assert forall|v: u64|
                    #[trigger] b.voice_map().contains_key(v)
                        && b.voice_map()[v].owner_id is Some
                    implies b.owner_at(
                        b.voice_map()[v].guild_id,
                        b.voice_map()[v].owner_id->0,
                    ) == Some(v) by {
                    if v == id {
                        assert(b.owner_at(guild_id, owner_id->0) == Some(id));
                    } else {
                        assert(a.voice_map().contains_key(v));
                        assert(retarget != Some(v));
                        assert(b.voice_map()[v].owner_id == a.voice_map()[v].owner_id);
                        let gv = a.voice_map()[v].guild_id;
                        let uv = a.voice_map()[v].owner_id->0;
                        assert(a.owner_at(gv, uv) == Some(v));
                        if gv == guild_id && owner_id == Some(uv) {
                            assert(retarget == Some(v));
                            assert(false);
                        }
                    }
                }
            }
            assert(b.joins_wf()) by {
                assert forall|j: u64| #[trigger] b.join_map().contains_key(j) implies {
                    let c = b.join_map()[j];
                    &&& b.category_map().contains_key(c)
                    &&& b.category_map()[c].join_channel_id == Some(j)
                    &&& !b.voice_map().contains_key(j)
                } by {
                    assert(a.join_map().contains_key(j));
                    assert(j != id);
                    assert(a.category_map().contains_key(a.join_map()[j]));
                }
                assert forall|c: u64|
                    #[trigger] b.category_map().contains_key(c)
                        && b.category_map()[c].join_channel_id is Some implies {
                    let j = b.category_map()[c].join_channel_id->0;
                    &&& b.join_map().contains_key(j)
                    &&& b.join_map()[j] == c
                } by {
                    assert(a.category_map().contains_key(c));
                    assert(b.category_map()[c].join_channel_id
                        == a.category_map()[c].join_channel_id);
                }
            }
            assert forall|v: u64|
                #[trigger] b.voice_map().contains_key(v) && v != id implies {
                let av = a.voice_map()[v];
                let bv = b.voice_map()[v];
                &&& bv.guild_id == av.guild_id
                &&& bv.id == av.id
                &&& bv.panel_message_id == av.panel_message_id
                &&& bv.parent_id == av.parent_id
                &&& bv.permission_overwrites@ == av.permission_overwrites@
                &&& bv.owner_id == if av.guild_id == guild_id && owner_id is Some
                    && av.owner_id == owner_id {
                    None::<u64>
                } else {
                    av.owner_id
                }
                &&& forall|u: u64|
                    #[trigger] bv.connected_user_ids@.contains(u) == (
                        av.connected_user_ids@.contains(u) && !(av.guild_id == guild_id
                            && connected_user_ids@.contains(u)))
            } by {
                assert(a.voice_map().contains_key(v));
                if a.voice_map()[v].guild_id == guild_id && owner_id is Some
                    && a.voice_map()[v].owner_id == owner_id {
                    assert(a.owner_at(guild_id, owner_id->0) == Some(v));
                    assert(retarget == Some(v));
                }
                if retarget == Some(v) {
                    assert(a.voice_map()[v].owner_id == owner_id);
                    assert(a.voice_map()[v].guild_id == guild_id);
                }
            }
        }
    }

    /// Replaces a category's template overwrite list, as a channel-update
    /// event reports it; a miss mutates nothing.
    pub fn update_category_overwrites(
        &mut self,
        channel_id: u64,
        permission_overwrites: Vec<Overwrite>,
    )
        requires
            old(self).wf(),
        ensures
            final(self).wf(),
            !old(self).category_map().contains_key(channel_id)
                ==> Self::same_state(*old(self), *final(self)),
            old(self).category_map().contains_key(channel_id) ==> {
                &&& final(self).category_map() =~= old(self).category_map().insert(
                    channel_id,
                    (CachedCategoryChannel {
                        permission_overwrites,
                        ..old(self).category_map()[channel_id]
                    }),
                )
                &&& final(self).guild_map() == old(self).guild_map()
                &&& final(self).voice_map() == old(self).voice_map()
                &&& final(self).join_map() == old(self).join_map()
                &&& final(self).unavailable_set() == old(self).unavailable_set()
                &&& Self::same_indices(*old(self), *final(self))
            },
    {
        match self.category_channels.remove(&channel_id) {
            Some(c) => {
                self.category_channels.insert(
                    channel_id,
                    CachedCategoryChannel { permission_overwrites, ..c },
                );
                proof {
                    Self::lemma_wf_category_value(*old(self), *self, channel_id);
                }
            },
            None => {
                proof {
                    assert(self.category_channels@ =~= old(self).category_channels@);
                    Self::lemma_wf_same_maps(*old(self), *self);
                }
            },
        }
    }
}

} // verus!
