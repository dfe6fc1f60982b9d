//! The channel lifecycle controller: the decisions behind provisioning,
//! cleanup, ownership, panel upkeep and the guild-level commands.
//!
//! Every function here reads the cache and plain event values and returns
//! a decision; the caller performs the remote calls the decision names and
//! feeds confirmed results back into the cache. Remote failures therefore
//! never leave the cache half-updated: nothing is cached until the caller
//! commits a confirmed result.

use vstd::prelude::*;
use crate::cache::Cache;
use crate::perms;
use crate::perms::{Overwrite, Privacy};
use crate::text;

verus! {

/// What a panel-message check decides.
#[derive(Clone, Copy, PartialEq, Eq, Structural, Debug)]
pub enum PanelAction {
    /// A live panel message is already recorded: keep it, create nothing.
    Keep(u64),
    /// No live panel message exists: create and record a new one.
    Create,
}

/// The decision behind panel upkeep: a recorded message that still exists
/// remotely is kept; only a missing or absent one is recreated.
pub open spec fn spec_panel_action(recorded: Option<u64>, remote_exists: bool) -> PanelAction {
    if recorded is Some && remote_exists {
        PanelAction::Keep(recorded->0)
    } else {
        PanelAction::Create
    }
}

/// Decides whether a panel message must be recreated; see
/// [`spec_panel_action`].
pub fn ensure_panel_message(recorded: Option<u64>, remote_exists: bool) -> (r: PanelAction)
    ensures
        r == spec_panel_action(recorded, remote_exists),
{
    match recorded {
        Some(id) => if remote_exists {
            PanelAction::Keep(id)
        } else {
            PanelAction::Create
        },
        None => PanelAction::Create,
    }
}

/// Law: panel upkeep is idempotent. Whatever the first check decides, a
/// second check made while that message still exists keeps the very same
/// id and creates nothing: each message id is created at most once.
pub proof fn lemma_panel_message_idempotent(
    recorded: Option<u64>,
    remote_exists: bool,
    created_id: u64,
)
    ensures
        ({
            let first = spec_panel_action(recorded, remote_exists);
            let settled_id = match first {
                PanelAction::Keep(id) => id,
                PanelAction::Create => created_id,
            };
            spec_panel_action(Some(settled_id), true) == PanelAction::Keep(settled_id)
        }),
{
}

/// What a claim attempt decides.
#[derive(Clone, Copy, PartialEq, Eq, Structural, Debug)]
pub enum ClaimOutcome {
    /// The channel is not cached: a stale reference, nothing happens.
    UnknownChannel,
    /// The claimant already owns a channel in this guild.
    ClaimantOwnsChannel,
    /// The channel already has an owner.
    HasOwner,
    /// The claim succeeds: persist, then retarget the cache's ownership.
    Granted,
}

/// Decides a claim: it succeeds only on a cached, ownerless channel whose
/// claimant owns no other channel in the guild.
pub fn claim_decision(cache: &Cache, channel_id: u64, user_id: u64) -> (r: ClaimOutcome)
    ensures
        r is UnknownChannel <==> !cache.voice_map().contains_key(channel_id),
        cache.voice_map().contains_key(channel_id) ==> {
            let vc = cache.voice_map()[channel_id];
            r == if cache.owner_at(vc.guild_id, user_id) is Some {
                ClaimOutcome::ClaimantOwnsChannel
            } else if vc.owner_id is Some {
                ClaimOutcome::HasOwner
            } else {
                ClaimOutcome::Granted
            }
        },
{
    let vc = match cache.voice_channel(channel_id) {
        None => {
            return ClaimOutcome::UnknownChannel;
        },
        Some(vc) => vc,
    };
    if cache.voice_channel_owner(vc.guild_id, user_id).is_some() {
        ClaimOutcome::ClaimantOwnsChannel
    } else if vc.owner_id.is_some() {
        ClaimOutcome::HasOwner
    } else {
        ClaimOutcome::Granted
    }
}

/// What a transfer attempt decides.
#[derive(Clone, Copy, PartialEq, Eq, Structural, Debug)]
pub enum TransferOutcome {
    /// The channel is not cached: a stale reference, nothing happens.
    UnknownChannel,
    /// Rooms are never handed to bots.
    TargetIsBot,
    /// The target already owns a channel in this guild.
    TargetOwnsChannel,
    /// The transfer succeeds: persist, then retarget the cache's ownership.
    Granted,
}

/// Decides a transfer: it succeeds only when the target is not a bot and
/// owns no other channel in the guild.
pub fn transfer_decision(
    cache: &Cache,
    channel_id: u64,
    target_id: u64,
    target_is_bot: bool,
) -> (r: TransferOutcome)
    ensures
        r is UnknownChannel <==> !cache.voice_map().contains_key(channel_id),
        cache.voice_map().contains_key(channel_id) ==> {
            let vc = cache.voice_map()[channel_id];
            r == if target_is_bot {
                TransferOutcome::TargetIsBot
            } else if cache.owner_at(vc.guild_id, target_id) is Some {
                TransferOutcome::TargetOwnsChannel
            } else {
                TransferOutcome::Granted
            }
        },
{
    let vc = match cache.voice_channel(channel_id) {
        None => {
            return TransferOutcome::UnknownChannel;
        },
        Some(vc) => vc,
    };
    if target_is_bot {
        TransferOutcome::TargetIsBot
    } else if cache.voice_channel_owner(vc.guild_id, target_id).is_some() {
        TransferOutcome::TargetOwnsChannel
    } else {
        TransferOutcome::Granted
    }
}

/// What a kick attempt decides.
#[derive(Clone, Copy, PartialEq, Eq, Structural, Debug)]
pub enum KickOutcome {
    /// The channel is not cached: a stale reference, nothing happens.
    UnknownChannel,
    /// The bot, the owner and the invoker may not be kicked.
    Protected,
    /// The target is not connected to this channel.
    NotConnected,
    /// Move the target out of the channel.
    Kick,
}

/// Decides a kick: the bot, the channel's owner and the invoking user are
/// protected targets, and only a connected user can be kicked.
pub fn kick_decision(
    cache: &Cache,
    channel_id: u64,
    target_id: u64,
    bot_user_id: u64,
    invoker_id: u64,
) -> (r: KickOutcome)
    ensures
        r is UnknownChannel <==> !cache.voice_map().contains_key(channel_id),
        cache.voice_map().contains_key(channel_id) ==> {
            let vc = cache.voice_map()[channel_id];
            r == if target_id == bot_user_id || target_id == invoker_id || vc.owner_id
                == Some(target_id) {
                KickOutcome::Protected
            } else if !vc.connected_user_ids@.contains(target_id) {
                KickOutcome::NotConnected
            } else {
                KickOutcome::Kick
            }
        },
{
    let vc = match cache.voice_channel(channel_id) {
        None => {
            return KickOutcome::UnknownChannel;
        },
        Some(vc) => vc,
    };
    let owner_match = match vc.owner_id {
        Some(u) => u == target_id,
        None => false,
    };
    if target_id == bot_user_id || target_id == invoker_id || owner_match {
        KickOutcome::Protected
    } else if !crate::cache::vec_contains(&vc.connected_user_ids, target_id) {
        KickOutcome::NotConnected
    } else {
        KickOutcome::Kick
    }
}

/// The kind of a platform channel, as far as the lifecycle cares.
#[derive(Clone, Copy, PartialEq, Eq, Structural, Debug)]
pub enum ChannelKind {
    Category,
    Voice,
    Other,
}

/// What a channel-deleted event requires.
#[derive(Clone, Copy, PartialEq, Eq, Structural, Debug)]
pub enum ChannelDeleteAction {
    /// Remove the category row, then cascade the cache.
    RemoveCategory,
    /// The deleted channel was a category's trigger: clear that category's
    /// trigger in the store and the cache.
    ClearJoin(u64),
    /// Remove the voice-channel row, then drop the cache entry.
    RemoveVoice,
    /// Not a kind the lifecycle tracks.
    Ignore,
}

/// Decides what a channel-deleted event requires: a deleted category
/// cascades; a deleted voice channel either was some category's trigger —
/// which merely loses its trigger — or is dropped with its indices.
pub fn channel_delete_action(cache: &Cache, channel_id: u64, kind: ChannelKind) -> (r:
    ChannelDeleteAction)
    requires
        cache.wf(),
    ensures
        r == match kind {
            ChannelKind::Category => ChannelDeleteAction::RemoveCategory,
            ChannelKind::Voice => if cache.join_map().contains_key(channel_id) {
                ChannelDeleteAction::ClearJoin(cache.join_map()[channel_id])
            } else {
                ChannelDeleteAction::RemoveVoice
            },
            ChannelKind::Other => ChannelDeleteAction::Ignore,
        },
{
    match kind {
        ChannelKind::Category => ChannelDeleteAction::RemoveCategory,
        ChannelKind::Voice => {
            match cache.category_by_join(channel_id) {
                Some(cat) => ChannelDeleteAction::ClearJoin(cat.id),
                None => ChannelDeleteAction::RemoveVoice,
            }
        },
        ChannelKind::Other => ChannelDeleteAction::Ignore,
    }
}

/// Whether a deleted message was the recorded panel message of a cached
/// voice channel, in which case the record must be cleared.
pub fn panel_message_deleted(cache: &Cache, channel_id: u64, message_id: u64) -> (r: bool)
    ensures
        r == (cache.voice_map().contains_key(channel_id)
            && cache.voice_map()[channel_id].panel_message_id == Some(message_id)),
{
    match cache.voice_channel(channel_id) {
        None => false,
        Some(vc) => match vc.panel_message_id {
            Some(m) => m == message_id,
            None => false,
        },
    }
}

/// What a create-category command decides.
pub enum CategoryPlanOutcome {
    /// The guild is not cached: a stale reference, nothing happens.
    UnknownGuild,
    /// The guild already has its maximum of three voice categories: the
    /// command is rejected and no remote call is made.
    LimitReached,
    /// Create the category and its trigger channel remotely with these
    /// overwrites, then persist and cache the confirmed result.
    Create { category_overwrites: Vec<Overwrite>, join_overwrites: Vec<Overwrite> },
}

/// Decides a create-category command: a guild holds at most three voice
/// categories, and a fourth attempt is rejected before any remote call.
pub fn create_category_decision(cache: &Cache, guild_id: u64) -> (r: CategoryPlanOutcome)
    ensures
        r is UnknownGuild <==> !cache.guild_map().contains_key(guild_id),
        cache.guild_map().contains_key(guild_id) ==> {
            let g = cache.guild_map()[guild_id];
            &&& (r is LimitReached <==> g.category_channel_ids@.len() >= 3)
            &&& g.category_channel_ids@.len() < 3 ==> {
                &&& r is Create
                &&& r->category_overwrites@ =~= seq![
                    Overwrite {
                        id: guild_id,
                        kind: perms::OverwriteKind::Role,
                        allow: 0,
                        deny: if g.privacy == Privacy::Invisible {
                            perms::VIEW_CHANNEL
                        } else {
                            0
                        },
                    },
                    Overwrite {
                        id: g.bot_role_id,
                        kind: perms::OverwriteKind::Role,
                        allow: perms::VIEW_CHANNEL,
                        deny: 0,
                    },
                ]
                &&& r->join_overwrites@ =~= seq![
                    Overwrite {
                        id: g.bot_role_id,
                        kind: perms::OverwriteKind::Role,
                        allow: perms::CONNECT | perms::VIEW_CHANNEL,
                        deny: 0,
                    },
                ]
            }
        },
{
    let g = match cache.guild(guild_id) {
        None => {
            return CategoryPlanOutcome::UnknownGuild;
        },
        Some(g) => g,
    };
    if g.category_channel_ids.len() >= 3 {
        return CategoryPlanOutcome::LimitReached;
    }
    CategoryPlanOutcome::Create {
        category_overwrites: perms::category_creation_overwrites(
            guild_id,
            g.bot_role_id,
            g.privacy,
        ),
        join_overwrites: perms::join_channel_overwrites(g.bot_role_id),
    }
}

/// What a create-join-channel command decides.
pub enum JoinChannelOutcome {
    /// The channel is not a cached voice category.
    NotCategory,
    /// The category already has a trigger channel.
    AlreadyHasJoin,
    /// Create the trigger channel remotely with these overwrites, then
    /// persist and record the confirmed id.
    Create { overwrites: Vec<Overwrite> },
}

/// Decides a create-join-channel command: only a cached category without a
/// trigger channel gets a new one.
pub fn join_channel_decision(cache: &Cache, category_id: u64) -> (r: JoinChannelOutcome)
    requires
        cache.wf(),
    ensures
        r is NotCategory <==> !cache.category_map().contains_key(category_id),
        cache.category_map().contains_key(category_id) ==> {
            let cat = cache.category_map()[category_id];
            &&& (r is AlreadyHasJoin <==> cat.join_channel_id is Some)
            &&& cat.join_channel_id is None ==> {
                &&& r is Create
                &&& r->Create_overwrites@ =~= seq![
                    Overwrite {
                        id: cache.guild_map()[cat.guild_id].bot_role_id,
                        kind: perms::OverwriteKind::Role,
                        allow: perms::CONNECT | perms::VIEW_CHANNEL,
                        deny: 0,
                    },
                ]
            }
        },
{
    let cat = match cache.category_channel(category_id) {
        None => {
            return JoinChannelOutcome::NotCategory;
        },
        Some(cat) => cat,
    };
    if cat.join_channel_id.is_some() {
        return JoinChannelOutcome::AlreadyHasJoin;
    }
    let bot_role_id = match cache.guild(cat.guild_id) {
        Some(g) => g.bot_role_id,
        None => {
            proof {
                assert(false);
            }
            0
        },
    };
    JoinChannelOutcome::Create { overwrites: perms::join_channel_overwrites(bot_role_id) }
}

/// What a remove-category command decides.
pub enum RemoveCategoryOutcome {
    /// The guild is not cached: a stale reference, nothing happens.
    UnknownGuild,
    /// No voice categories exist in the guild.
    NoCategories,
    /// The channel is not a cached voice category.
    NotCategory,
    /// Request remote deletion of these channels; the cache follows the
    /// platform's own deletion events.
    Remove(Vec<u64>),
}

/// Decides a remove-category command: the category itself, its trigger
/// channel and every voice channel spawned under it are to be deleted
/// remotely. The cache entries fall only when the platform confirms each
/// deletion.
pub fn remove_category_targets(cache: &Cache, guild_id: u64, channel_id: u64) -> (r:
    RemoveCategoryOutcome)
    requires
        cache.wf(),
    ensures
        r is UnknownGuild <==> !cache.guild_map().contains_key(guild_id),
        cache.guild_map().contains_key(guild_id) ==> {
            let g = cache.guild_map()[guild_id];
            &&& (r is NoCategories <==> g.category_channel_ids@.len() == 0)
            &&& g.category_channel_ids@.len() > 0 ==> {
                &&& (r is NotCategory <==> !cache.category_map().contains_key(channel_id))
                &&& cache.category_map().contains_key(channel_id) ==> {
                    let cat = cache.category_map()[channel_id];
                    &&& r is Remove
                    &&& r->0@.no_duplicates()
                    &&& forall|x: u64|
                        #[trigger] r->0@.contains(x) == (cat.voice_channel_ids@.contains(x)
                            || x == channel_id || cat.join_channel_id == Some(x))
                }
            }
        },
{
    let g = match cache.guild(guild_id) {
        None => {
            return RemoveCategoryOutcome::UnknownGuild;
        },
        Some(g) => g,
    };
    if g.category_channel_ids.len() == 0 {
        return RemoveCategoryOutcome::NoCategories;
    }
    let cat = match cache.category_channel(channel_id) {
        None => {
            return RemoveCategoryOutcome::NotCategory;
        },
        Some(cat) => cat,
    };
    let mut ids = crate::cache::vec_copy(&cat.voice_channel_ids);
    crate::cache::vec_push_unique(&mut ids, channel_id);
    if let Some(j) = cat.join_channel_id {
        crate::cache::vec_push_unique(&mut ids, j);
    }
    RemoveCategoryOutcome::Remove(ids)
}

/// What a permanence command decides.
pub enum PermanenceOutcome {
    /// The guild is not cached: a stale reference, nothing happens.
    UnknownGuild,
    /// The flag already has that value: nothing to do.
    NoChange,
    /// Persist and cache the new flag; when permanence was switched off,
    /// request remote deletion of these currently empty temporary channels
    /// (fire-and-forget, per-channel failures are not retried).
    Apply(Vec<u64>),
}

/// Decides a permanence command. Switching permanence off sweeps the
/// guild's currently empty temporary channels for deletion.
pub fn permanence_update_decision(cache: &Cache, guild_id: u64, permanence: bool) -> (r:
    PermanenceOutcome)
    requires
        cache.wf(),
    ensures
        r is UnknownGuild <==> !cache.guild_map().contains_key(guild_id),
        cache.guild_map().contains_key(guild_id) ==> {
            let g = cache.guild_map()[guild_id];
            &&& (r is NoChange <==> g.permanence == permanence)
            &&& g.permanence != permanence ==> r is Apply
            &&& g.permanence != permanence && permanence ==> r->0@ == Seq::<u64>::empty()
            &&& g.permanence != permanence && !permanence ==> {
                &&& r->0@.no_duplicates()
                &&& forall|c: u64|
                    #[trigger] r->0@.contains(c) == (cache.voice_map().contains_key(c)
                        && cache.category_map()[cache.voice_map()[c].parent_id].guild_id
                            == guild_id
                        && cache.voice_map()[c].connected_user_ids@.len() == 0)
            }
        },
{
    let g = match cache.guild(guild_id) {
        None => {
            return PermanenceOutcome::UnknownGuild;
        },
        Some(g) => g,
    };
    if g.permanence == permanence {
        return PermanenceOutcome::NoChange;
    }
    let mut empty_channels: Vec<u64> = Vec::new();
    if !permanence {
        let cats = &g.category_channel_ids;
        let mut i: usize = 0;
        while i < cats.len()
            invariant
                cache.wf(),
                cache.guild_map().contains_key(guild_id),
                cats == &cache.guild_map()[guild_id].category_channel_ids,
                i <= cats@.len(),
                empty_channels@.no_duplicates(),
                forall|c: u64|
                    #[trigger] empty_channels@.contains(c) == (
                        cache.voice_map().contains_key(c) && cats@.take(i as int).contains(
                            cache.voice_map()[c].parent_id,
                        ) && cache.voice_map()[c].connected_user_ids@.len() == 0),
            decreases cats@.len() - i,
        {
            let cat_id = cats[i];
            let ghost before: Seq<u64> = empty_channels@;
            proof {
                assert(cats@.contains(cat_id));
                assert(cache.category_map().contains_key(cat_id));
            }
            match cache.category_channel(cat_id) {
                None => {
                    proof {
                        assert(false);
                    }
                },
                Some(cat) => {
                    let children = &cat.voice_channel_ids;
                    let mut j: usize = 0;
                    while j < children.len()
                        invariant
                            cache.wf(),
                            cache.guild_map().contains_key(guild_id),
                            cache.category_map().contains_key(cat_id),
                            children == &cache.category_map()[cat_id].voice_channel_ids,
                            j <= children@.len(),
                            empty_channels@.no_duplicates(),
                            forall|c: u64|
                                #[trigger] empty_channels@.contains(c) == (
                                    cache.voice_map().contains_key(c) && (before.contains(c)
                                        || (cache.voice_map()[c].parent_id == cat_id
                                        && children@.take(j as int).contains(c)))
                                    && cache.voice_map()[c].connected_user_ids@.len() == 0),
                            forall|c: u64| #[trigger] before.contains(c)
                                ==> empty_channels@.contains(c),
                            forall|c: u64|
                                #[trigger] before.contains(c) == (
                                    cache.voice_map().contains_key(c) && cats@.take(
                                        i as int,
                                    ).contains(cache.voice_map()[c].parent_id)
                                    && cache.voice_map()[c].connected_user_ids@.len() == 0),
                        decreases children@.len() - j,
                    {
                        let child = children[j];
                        proof {
                            assert(children@.take(j as int + 1)
                                =~= children@.take(j as int).push(child));
                            assert(children@.contains(child)) by {
                                assert(children@[j as int] == child);
                            }
                            assert(cache.voice_map().contains_key(child));
                            assert(cache.voice_map()[child].parent_id == cat_id);
                        }
                        match cache.voice_channel(child) {
                            None => {
                                proof {
                                    assert(false);
                                }
                            },
                            Some(vc) => {
                                if vc.connected_user_ids.len() == 0 {
                                    crate::cache::vec_push_unique(&mut empty_channels, child);
                                }
                            },
                        }
                        proof {
                            assert forall|c: u64|
                                #[trigger] empty_channels@.contains(c) == (
                                    cache.voice_map().contains_key(c) && (before.contains(c)
                                        || (cache.voice_map()[c].parent_id == cat_id
                                        && children@.take(j as int + 1).contains(c)))
                                    && cache.voice_map()[c].connected_user_ids@.len()
                                        == 0) by {
                                if children@.take(j as int + 1).contains(c) && !children@.take(
                                    j as int,
                                ).contains(c) {
                                    let k = choose|k: int|
                                        0 <= k <= j && #[trigger] children@.take(
                                            j as int + 1,
                                        )[k] == c;
                                    if k < j {
                                        assert(children@.take(j as int)[k] == c);
                                    } else {
                                        assert(c == child);
                                    }
                                }
                                if children@.take(j as int).contains(c) {
                                    let k = choose|k: int|
                                        0 <= k < j && #[trigger] children@.take(j as int)[k]
                                            == c;
                                    assert(children@.take(j as int + 1)[k] == c);
                                }
                                if c == child {
                                    assert(children@.take(j as int + 1)[j as int] == c);
                                }
                            }
                        }
                        j += 1;
                    }
                    proof {
                        assert(children@.take(children@.len() as int) =~= children@);
                    }
                },
            }
            proof {
                assert(cats@.take(i as int + 1) =~= cats@.take(i as int).push(cat_id));
                assert forall|c: u64|
                    #[trigger] empty_channels@.contains(c) == (
                        cache.voice_map().contains_key(c) && cats@.take(i as int + 1).contains(
                            cache.voice_map()[c].parent_id,
                        ) && cache.voice_map()[c].connected_user_ids@.len() == 0) by {
                    let p = if cache.voice_map().contains_key(c) {
                        cache.voice_map()[c].parent_id
                    } else {
                        0
                    };
                    if cache.voice_map().contains_key(c) {
                        if cats@.take(i as int + 1).contains(p) && !cats@.take(
                            i as int,
                        ).contains(p) {
                            let k = choose|k: int|
                                0 <= k <= i && #[trigger] cats@.take(i as int + 1)[k] == p;
                            if k < i {
                                assert(cats@.take(i as int)[k] == p);
                            } else {
                                assert(p == cat_id);
                            }
                        }
                        if cats@.take(i as int).contains(p) {
                            let k = choose|k: int|
                                0 <= k < i && #[trigger] cats@.take(i as int)[k] == p;
                            assert(cats@.take(i as int + 1)[k] == p);
                        }
                        if p == cat_id {
                            assert(cats@.take(i as int + 1)[i as int] == p);
                        }
                        if empty_channels@.contains(c) && !before.contains(c)
                            && cache.voice_map()[c].parent_id == cat_id {
                            assert(cache.category_map()[cat_id].voice_channel_ids@.contains(
                                c,
                            ));
                        }
                        if cats@.take(i as int + 1).contains(p) && p == cat_id
                            && cache.voice_map()[c].connected_user_ids@.len() == 0 {
                            assert(cache.category_map()[p].voice_channel_ids@.contains(c));
                        }
                    }
                }
            }
            i += 1;
        }
        proof {
            assert(cats@.take(cats@.len() as int) =~= cats@);
            assert forall|c: u64|
                #[trigger] empty_channels@.contains(c) == (cache.voice_map().contains_key(c)
                    && cache.category_map()[cache.voice_map()[c].parent_id].guild_id
                        == guild_id
                    && cache.voice_map()[c].connected_user_ids@.len() == 0) by {
                if cache.voice_map().contains_key(c) {
                    let p = cache.voice_map()[c].parent_id;
                    assert(cache.category_map().contains_key(p));
                    if cats@.contains(p) {
                        assert(cache.category_map()[p].guild_id == guild_id);
                    }
                    if cache.category_map()[p].guild_id == guild_id {
                        assert(cache.guild_map()[guild_id].category_channel_ids@.contains(p));
                    }
                }
            }
        }
    }
    PermanenceOutcome::Apply(empty_channels)
}

/// One category's refreshed everyone-role entry after a default-privacy
/// change, to be pushed onto the category and its trigger channel.
pub struct CategoryPrivacyUpdate {
    pub category_id: u64,
    pub join_channel_id: Option<u64>,
    pub allow: u64,
    pub deny: u64,
}

/// What a privacy command decides.
pub enum PrivacyOutcome {
    /// The guild is not cached: a stale reference, nothing happens.
    UnknownGuild,
    /// The mode already has that value: nothing to do.
    NoChange,
    /// Persist and cache the new mode, and push each category's refreshed
    /// everyone-role entry remotely (fire-and-forget).
    Apply(Vec<CategoryPrivacyUpdate>),
}

/// Decides a privacy command: every category of the guild (and its trigger
/// channel) gets an everyone-role entry with connect and view cleared and
/// the new mode's deny bit applied.
pub fn privacy_update_decision(cache: &Cache, guild_id: u64, privacy: Privacy) -> (r:
    PrivacyOutcome)
    requires
        cache.wf(),
    ensures
        r is UnknownGuild <==> !cache.guild_map().contains_key(guild_id),
        cache.guild_map().contains_key(guild_id) ==> {
            let g = cache.guild_map()[guild_id];
            &&& (r is NoChange <==> g.privacy == privacy)
            &&& g.privacy != privacy ==> {
                &&& r is Apply
                &&& r->0@.len() == g.category_channel_ids@.len()
                &&& forall|i: int| 0 <= i < r->0@.len() ==> {
                    let cat_id = g.category_channel_ids@[i];
                    let cat = cache.category_map()[cat_id];
                    let prev = perms::first_target(
                        cat.permission_overwrites@,
                        guild_id,
                        perms::OverwriteKind::Role,
                    );
                    &&& (#[trigger] r->0@[i]).category_id == cat_id
                    &&& r->0@[i].join_channel_id == cat.join_channel_id
                    &&& r->0@[i].allow == perms::allow_of(prev) & !(perms::CONNECT
                        | perms::VIEW_CHANNEL)
                    &&& r->0@[i].deny == (perms::deny_of(prev) & !(perms::CONNECT
                        | perms::VIEW_CHANNEL)) | perms::privacy_deny_bit(privacy)
                }
            }
        },
{
    let g = match cache.guild(guild_id) {
        None => {
            return PrivacyOutcome::UnknownGuild;
        },
        Some(g) => g,
    };
    if g.privacy == privacy {
        return PrivacyOutcome::NoChange;
    }
    let cats = &g.category_channel_ids;
    let mut updates: Vec<CategoryPrivacyUpdate> = Vec::new();
    let mut i: usize = 0;
    while i < cats.len()
        invariant
            cache.wf(),
            cache.guild_map().contains_key(guild_id),
            cats == &cache.guild_map()[guild_id].category_channel_ids,
            i <= cats@.len(),
            updates@.len() == i,
            forall|k: int| 0 <= k < i ==> {
                let cat_id = cats@[k];
                let cat = cache.category_map()[cat_id];
                let prev = perms::first_target(
                    cat.permission_overwrites@,
                    guild_id,
                    perms::OverwriteKind::Role,
                );
                &&& (#[trigger] updates@[k]).category_id == cat_id
                &&& updates@[k].join_channel_id == cat.join_channel_id
                &&& updates@[k].allow == perms::allow_of(prev) & !(perms::CONNECT
                    | perms::VIEW_CHANNEL)
                &&& updates@[k].deny == (perms::deny_of(prev) & !(perms::CONNECT
                    | perms::VIEW_CHANNEL)) | perms::privacy_deny_bit(privacy)
            },
        decreases cats@.len() - i,
    {
        let cat_id = cats[i];
        proof {
            assert(cats@.contains(cat_id));
            assert(cache.category_map().contains_key(cat_id));
        }
        match cache.category_channel(cat_id) {
            None => {
                proof {
                    assert(false);
                }
            },
            Some(cat) => {
                let (allow, deny) = perms::category_privacy_entry(
                    &cat.permission_overwrites,
                    privacy,
                    guild_id,
                );
                updates.push(CategoryPrivacyUpdate {
                    category_id: cat_id,
                    join_channel_id: cat.join_channel_id,
                    allow,
                    deny,
                });
            },
        }
        i += 1;
    }
    PrivacyOutcome::Apply(updates)
}

/// The plan for provisioning a new temporary voice channel: create it
/// remotely under the category with this name and these overwrites, post
/// the panel message, move the user in, persist the row, and only then
/// cache the confirmed channel.
pub struct ProvisionPlan {
    pub category_id: u64,
    pub channel_name: String,
    pub permission_overwrites: Vec<Overwrite>,
}

/// What a voice-presence change requires of the caller.
pub struct VoiceUpdateActions {
    /// A temporary channel left empty in a guild without permanence: its
    /// remote deletion is to be requested. The cache keeps the entry until
    /// the platform confirms the deletion.
    pub delete_channel: Option<u64>,
    /// The user joined a trigger channel while owning no room: provision
    /// one.
    pub provision: Option<ProvisionPlan>,
}

/// Applies a voice-presence change to the cache and decides what follows:
/// the user leaves the channel they were in (which may leave it empty and
/// due for deletion), enters the new one if it is tracked, and joining a
/// category's trigger channel while owning no room in the guild yields a
/// provisioning plan built from the category's template and the guild's
/// default privacy.
pub fn voice_state_update(
    cache: &mut Cache,
    guild_id: u64,
    user_id: u64,
    new_channel_id: Option<u64>,
    display_name: Option<&str>,
) -> (r: VoiceUpdateActions)
    requires
        old(cache).wf(),
    ensures
        final(cache).wf(),
        !old(cache).guild_map().contains_key(guild_id) ==> {
            &&& Cache::same_state(*old(cache), *final(cache))
            &&& r.delete_channel is None
            &&& r.provision is None
        },
        old(cache).guild_map().contains_key(guild_id) ==> {
            &&& final(cache).guild_map() == old(cache).guild_map()
            &&& final(cache).category_map() == old(cache).category_map()
            &&& final(cache).join_map() == old(cache).join_map()
            &&& final(cache).unavailable_set() == old(cache).unavailable_set()
            &&& forall|g2: u64, u2: u64|
                #[trigger] final(cache).owner_at(g2, u2) == old(cache).owner_at(g2, u2)
            &&& forall|g2: u64, u2: u64|
                #[trigger] final(cache).presence_at(g2, u2) == if g2 == guild_id && u2
                    == user_id {
                    if new_channel_id is Some && old(cache).voice_map().contains_key(
                        new_channel_id->0,
                    ) && old(cache).voice_map()[new_channel_id->0].guild_id == guild_id {
                        new_channel_id
                    } else {
                        None
                    }
                } else {
                    old(cache).presence_at(g2, u2)
                }
            &&& final(cache).voice_map().dom() == old(cache).voice_map().dom()
            &&& forall|v: u64| #[trigger] final(cache).voice_map().contains_key(v) ==> {
                let av = old(cache).voice_map()[v];
                let bv = final(cache).voice_map()[v];
                &&& bv.guild_id == av.guild_id
                &&& bv.id == av.id
                &&& bv.owner_id == av.owner_id
                &&& bv.panel_message_id == av.panel_message_id
                &&& bv.parent_id == av.parent_id
                &&& bv.permission_overwrites@ == av.permission_overwrites@
                &&& forall|u2: u64|
                    #[trigger] bv.connected_user_ids@.contains(u2) == ((
                        av.connected_user_ids@.contains(u2)
                        && !(av.guild_id == guild_id && u2 == user_id))
                        || (new_channel_id == Some(v) && av.guild_id == guild_id && u2
                        == user_id))
            }
            &&& r.delete_channel == ({
                let prev = old(cache).presence_at(guild_id, user_id);
                if prev is Some && !old(cache).guild_map()[guild_id].permanence && (
                forall|u2: u64|
                    #[trigger] old(cache).voice_map()[prev->0].connected_user_ids@.contains(
                        u2,
                    ) ==> u2 == user_id) {
                    prev
                } else {
                    None::<u64>
                }
            })
            &&& (r.provision is Some <==> (new_channel_id is Some && display_name is Some
                && old(cache).owner_at(guild_id, user_id) is None
                && old(cache).join_map().contains_key(new_channel_id->0) && old(cache).category_map()[old(cache).join_map()[new_channel_id->0]].guild_id == guild_id))
            &&& r.provision is Some ==> {
                let cat_id = old(cache).join_map()[new_channel_id->0];
                let cat = old(cache).category_map()[cat_id];
                let g = old(cache).guild_map()[guild_id];
                &&& r.provision->0.category_id == cat_id
                &&& r.provision->0.channel_name@ == text::spec_channel_name(
                    display_name->0@,
                )
                &&& r.provision->0.permission_overwrites@ == perms::spec_initial_overwrites(
                    cat.permission_overwrites@,
                    g.privacy,
                    user_id,
                    g.bot_role_id,
                    guild_id,
                )
            }
        },
{
    let (permanence, privacy, bot_role_id) = match cache.guild(guild_id) {
        None => {
            proof {
                assert(Cache::same_state(*old(cache), *cache));
            }
            return VoiceUpdateActions { delete_channel: None, provision: None };
        },
        Some(g) => (g.permanence, g.privacy, g.bot_role_id),
    };
    let old_presence = cache.voice_state(guild_id, user_id);
    cache.remove_voice_state(guild_id, user_id);
    let mut delete_channel: Option<u64> = None;
    if let Some(old_channel_id) = old_presence {
        if !permanence {
            match cache.voice_channel(old_channel_id) {
                Some(vc) => {
                    if vc.connected_user_ids.len() == 0 {
                        delete_channel = Some(old_channel_id);
                        proof {
                            let av = old(cache).voice_map()[old_channel_id];
                            assert forall|u2: u64|
                                #[trigger] av.connected_user_ids@.contains(u2)
                                implies u2 == user_id by {
                                if u2 != user_id {
                                    assert(cache.voice_map()[old_channel_id]
                                        .connected_user_ids@.contains(u2));
                                }
                            }
                        }
                    } else {
                        proof {
                            let av = old(cache).voice_map()[old_channel_id];
                            let s = cache.voice_map()[old_channel_id].connected_user_ids@;
                            assert(s.contains(s[0]));
                            assert(av.connected_user_ids@.contains(s[0]) && s[0] != user_id);
                        }
                    }
                },
                None => {
                    proof {
                        assert(old(cache).presence_at(guild_id, user_id)
                            == Some(old_channel_id));
                        assert(false);
                    }
                },
            }
        }
    }
    let ghost m = *cache;
    let mut provision: Option<ProvisionPlan> = None;
    match new_channel_id {
        None => {},
        Some(c) => {
            cache.insert_voice_state(guild_id, c, user_id);
            proof {
                assert(m.voice_map().contains_key(c) == old(cache).voice_map().contains_key(
                    c,
                ));
                if m.voice_map().contains_key(c) {
                    assert(m.voice_map()[c].guild_id == old(cache).voice_map()[c].guild_id);
                }
            }
            if cache.voice_channel_owner(guild_id, user_id).is_none() {
                match cache.category_by_join(c) {
                    Some(cat) => {
                        if cat.guild_id == guild_id {
                            if let Some(name) = display_name {
                                let overwrites = perms::initial_overwrites(
                                    &cat.permission_overwrites,
                                    privacy,
                                    user_id,
                                    bot_role_id,
                                    guild_id,
                                );
                                provision = Some(ProvisionPlan {
                                    category_id: cat.id,
                                    channel_name: text::voice_channel_name(name),
                                    permission_overwrites: overwrites,
                                });
                            }
                        }
                    },
                    None => {},
                }
            }
        },
    }
    VoiceUpdateActions { delete_channel, provision }
}

/// A role of the guild snapshot, with the application id of the bot the
/// platform manages it for, if any.
pub struct RoleInfo {
    pub id: u64,
    pub bot_id: Option<u64>,
}

/// The first role the platform manages for the given application: the
/// bot's own role in the guild.
pub open spec fn spec_find_bot_role(roles: Seq<RoleInfo>, application_id: u64) -> Option<u64>
    decreases roles.len(),
{
    if roles.len() == 0 {
        None
    } else if roles[0].bot_id == Some(application_id) {
        Some(roles[0].id)
    } else {
        spec_find_bot_role(roles.drop_first(), application_id)
    }
}

proof fn lemma_find_bot_role_skip(roles: Seq<RoleInfo>, application_id: u64, i: int)
    requires
        0 <= i <= roles.len(),
        forall|j: int| 0 <= j < i ==> (#[trigger] roles[j]).bot_id != Some(application_id),
    ensures
        spec_find_bot_role(roles, application_id) == spec_find_bot_role(
            roles.skip(i),
            application_id,
        ),
    decreases i,
{
    if i == 0 {
        assert(roles.skip(0) =~= roles);
    } else {
        assert forall|j: int| 0 <= j < i - 1 implies (#[trigger] roles.drop_first()[j]).bot_id
            != Some(application_id) by {
            assert(roles.drop_first()[j] == roles[j + 1]);
        }
        lemma_find_bot_role_skip(roles.drop_first(), application_id, i - 1);
        assert(roles.drop_first().skip(i - 1) =~= roles.skip(i));
    }
}

/// Finds the bot's own managed role in a guild snapshot; when the platform
/// reports none, the bot does not belong in the guild.
pub fn find_bot_role(roles: &Vec<RoleInfo>, application_id: u64) -> (r: Option<u64>)
    ensures
        r == spec_find_bot_role(roles@, application_id),
{
    let mut i: usize = 0;
    while i < roles.len()
        invariant
            i <= roles@.len(),
            forall|j: int| 0 <= j < i ==> (#[trigger] roles@[j]).bot_id != Some(
                application_id,
            ),
        decreases roles@.len() - i,
    {
        let matches_app = match roles[i].bot_id {
            Some(b) => b == application_id,
            None => false,
        };
        if matches_app {
            proof {
                lemma_find_bot_role_skip(roles@, application_id, i as int);
                assert(roles@.skip(i as int)[0] == roles@[i as int]);
            }
            return Some(roles[i].id);
        }
        i += 1;
    }
    proof {
        lemma_find_bot_role_skip(roles@, application_id, roles@.len() as int);
        assert(roles@.skip(roles@.len() as int) =~= Seq::<RoleInfo>::empty());
    }
    None
}

/// A channel of the guild snapshot the platform pushes when a guild
/// becomes available.
pub struct ChannelSnapshot {
    pub id: u64,
    pub kind: ChannelKind,
    pub parent_id: Option<u64>,
    pub permission_overwrites: Vec<Overwrite>,
}

/// A voice presence of the guild snapshot.
pub struct PresenceSnapshot {
    pub channel_id: Option<u64>,
    pub user_id: u64,
}

/// A category-channel row of the durable store.
pub struct StoredCategoryChannel {
    pub id: u64,
    pub join_channel_id: Option<u64>,
}

/// A voice-channel row of the durable store.
pub struct StoredVoiceChannel {
    pub id: u64,
    pub parent_id: u64,
    pub owner_id: Option<u64>,
    pub panel_message_id: Option<u64>,
}

/// The ids of the snapshot's category and voice channels: the channels
/// that still exist live, against which the store is trimmed on resync.
pub open spec fn spec_live_channel_ids(s: Seq<ChannelSnapshot>) -> Seq<u64>
    decreases s.len(),
{
    if s.len() == 0 {
        Seq::empty()
    } else {
        let rest = spec_live_channel_ids(s.drop_last());
        if s.last().kind == ChannelKind::Category || s.last().kind == ChannelKind::Voice {
            rest.push(s.last().id)
        } else {
            rest
        }
    }
}

/// Lists the snapshot's live category and voice channel ids; see
/// [`spec_live_channel_ids`].
pub fn live_channel_ids(channels: &Vec<ChannelSnapshot>) -> (r: Vec<u64>)
    ensures
        r@ == spec_live_channel_ids(channels@),
{
    let mut r: Vec<u64> = Vec::new();
    let mut i: usize = 0;
    while i < channels.len()
        invariant
            i <= channels@.len(),
            r@ == spec_live_channel_ids(channels@.take(i as int)),
        decreases channels@.len() - i,
    {
        proof {
            assert(channels@.take(i as int + 1).drop_last() =~= channels@.take(i as int));
        }
        let k = channels[i].kind;
        if k == ChannelKind::Category || k == ChannelKind::Voice {
            r.push(channels[i].id);
        }
        i += 1;
    }
    proof {
        assert(channels@.take(channels@.len() as int) =~= channels@);
    }
    r
}

/// The live voice channels paired with their parent categories, with which
/// the store's parent links are refreshed on resync.
pub open spec fn spec_voice_parent_pairs(s: Seq<ChannelSnapshot>) -> Seq<(u64, u64)>
    decreases s.len(),
{
    if s.len() == 0 {
        Seq::empty()
    } else {
        let rest = spec_voice_parent_pairs(s.drop_last());
        if s.last().kind == ChannelKind::Voice && s.last().parent_id is Some {
            rest.push((s.last().id, s.last().parent_id->0))
        } else {
            rest
        }
    }
}

/// Lists the snapshot's voice channels with their parents; see
/// [`spec_voice_parent_pairs`].
pub fn voice_parent_pairs(channels: &Vec<ChannelSnapshot>) -> (r: Vec<(u64, u64)>)
    ensures
        r@ == spec_voice_parent_pairs(channels@),
{
    let mut r: Vec<(u64, u64)> = Vec::new();
    let mut i: usize = 0;
    while i < channels.len()
        invariant
            i <= channels@.len(),
            r@ == spec_voice_parent_pairs(channels@.take(i as int)),
        decreases channels@.len() - i,
    {
        proof {
            assert(channels@.take(i as int + 1).drop_last() =~= channels@.take(i as int));
        }
        if channels[i].kind == ChannelKind::Voice {
            if let Some(p) = channels[i].parent_id {
                r.push((channels[i].id, p));
            }
        }
        i += 1;
    }
    proof {
        assert(channels@.take(channels@.len() as int) =~= channels@);
    }
    r
}

/// The overwrites the snapshot reports for a channel, empty when the
/// snapshot does not hold it.
pub open spec fn spec_snapshot_overwrites(
    s: Seq<ChannelSnapshot>,
    id: u64,
    kind: ChannelKind,
) -> Seq<Overwrite>
    decreases s.len(),
{
    if s.len() == 0 {
        Seq::empty()
    } else if s[0].id == id && s[0].kind == kind {
        s[0].permission_overwrites@
    } else {
        spec_snapshot_overwrites(s.drop_first(), id, kind)
    }
}

proof fn lemma_snapshot_overwrites_skip(s: Seq<ChannelSnapshot>, id: u64, kind: ChannelKind, i: int)
    requires
        0 <= i <= s.len(),
        forall|j: int| 0 <= j < i ==> !((#[trigger] s[j]).id == id && s[j].kind == kind),
    ensures
        spec_snapshot_overwrites(s, id, kind) == spec_snapshot_overwrites(s.skip(i), id, kind),
    decreases i,
{
    if i == 0 {
        assert(s.skip(0) =~= s);
    } else {
        assert forall|j: int| 0 <= j < i - 1 implies !((#[trigger] s.drop_first()[j]).id == id
            && s.drop_first()[j].kind == kind) by {
            assert(s.drop_first()[j] == s[j + 1]);
        }
        lemma_snapshot_overwrites_skip(s.drop_first(), id, kind, i - 1);
        assert(s.drop_first().skip(i - 1) =~= s.skip(i));
    }
}

/// An owned copy of an overwrite list.
fn copy_overwrites(v: &Vec<Overwrite>) -> (r: Vec<Overwrite>)
    ensures
        r@ == v@,
{
    let mut r: Vec<Overwrite> = Vec::new();
    let mut i: usize = 0;
    while i < v.len()
        invariant
            i <= v@.len(),
            r@ == v@.take(i as int),
        decreases v@.len() - i,
    {
        r.push(v[i]);
        assert(r@ == v@.take(i + 1 as int));
        i += 1;
    }
    assert(r@ == v@);
    r
}

/// Reads the snapshot's overwrites for a channel; see
/// [`spec_snapshot_overwrites`].
pub fn snapshot_overwrites(
    channels: &Vec<ChannelSnapshot>,
    id: u64,
    kind: ChannelKind,
) -> (r: Vec<Overwrite>)
    ensures
        r@ == spec_snapshot_overwrites(channels@, id, kind),
{
    let mut i: usize = 0;
    while i < channels.len()
        invariant
            i <= channels@.len(),
            forall|j: int|
                0 <= j < i ==> !((#[trigger] channels@[j]).id == id && channels@[j].kind
                    == kind),
        decreases channels@.len() - i,
    {
        if channels[i].id == id && channels[i].kind == kind {
            proof {
                lemma_snapshot_overwrites_skip(channels@, id, kind, i as int);
                assert(channels@.skip(i as int)[0] == channels@[i as int]);
            }
            return copy_overwrites(&channels[i].permission_overwrites);
        }
        i += 1;
    }
    proof {
        lemma_snapshot_overwrites_skip(channels@, id, kind, channels@.len() as int);
        assert(channels@.skip(channels@.len() as int) =~= Seq::<ChannelSnapshot>::empty());
    }
    Vec::new()
}

/// The users the snapshot reports inside a channel.
pub open spec fn spec_users_in_channel(s: Seq<PresenceSnapshot>, channel_id: u64) -> Seq<u64>
    decreases s.len(),
{
    if s.len() == 0 {
        Seq::empty()
    } else {
        let rest = spec_users_in_channel(s.drop_last(), channel_id);
        if s.last().channel_id == Some(channel_id) {
            rest.push(s.last().user_id)
        } else {
            rest
        }
    }
}

/// Lists the users the snapshot reports inside a channel; see
/// [`spec_users_in_channel`].
pub fn users_in_channel(presences: &Vec<PresenceSnapshot>, channel_id: u64) -> (r: Vec<u64>)
    ensures
        r@ == spec_users_in_channel(presences@, channel_id),
{
    let mut r: Vec<u64> = Vec::new();
    let mut i: usize = 0;
    while i < presences.len()
        invariant
            i <= presences@.len(),
            r@ == spec_users_in_channel(presences@.take(i as int), channel_id),
        decreases presences@.len() - i,
    {
        proof {
            assert(presences@.take(i as int + 1).drop_last() =~= presences@.take(i as int));
        }
        let matches_channel = match presences[i].channel_id {
            Some(c) => c == channel_id,
            None => false,
        };
        if matches_channel {
            r.push(presences[i].user_id);
        }
        i += 1;
    }
    proof {
        assert(presences@.take(presences@.len() as int) =~= presences@);
    }
    r
}

/// The first store row for a category id, the one a resync caches when
/// rows repeat an id.
pub open spec fn spec_stored_category_at(
    s: Seq<StoredCategoryChannel>,
    id: u64,
) -> Option<StoredCategoryChannel>
    decreases s.len(),
{
    if s.len() == 0 {
        None
    } else if s[0].id == id {
        Some(s[0])
    } else {
        spec_stored_category_at(s.drop_first(), id)
    }
}

/// The first store row for a voice-channel id.
pub open spec fn spec_stored_voice_at(
    s: Seq<StoredVoiceChannel>,
    id: u64,
) -> Option<StoredVoiceChannel>
    decreases s.len(),
{
    if s.len() == 0 {
        None
    } else if s[0].id == id {
        Some(s[0])
    } else {
        spec_stored_voice_at(s.drop_first(), id)
    }
}

/// Whether the store's voice rows carry pairwise distinct ids, as rows
/// keyed by a primary id do.
pub open spec fn distinct_voice_ids(s: Seq<StoredVoiceChannel>) -> bool {
    forall|k1: int, k2: int|
        #![trigger s[k1], s[k2]]
        0 <= k1 < k2 < s.len() ==> s[k1].id != s[k2].id
}

proof fn lemma_stored_category_first(s: Seq<StoredCategoryChannel>, k: int)
    requires
        0 <= k < s.len(),
        forall|j: int| 0 <= j < k ==> (#[trigger] s[j]).id != s[k].id,
    ensures
        spec_stored_category_at(s, s[k].id) == Some(s[k]),
    decreases k,
{
    if k > 0 {
        assert(s[0].id != s[k].id);
        assert forall|j: int| 0 <= j < k - 1 implies (#[trigger] s.drop_first()[j]).id
            != s.drop_first()[k - 1].id by {
            assert(s.drop_first()[j] == s[j + 1]);
            assert(s.drop_first()[k - 1] == s[k]);
        }
        lemma_stored_category_first(s.drop_first(), k - 1);
        assert(s.drop_first()[k - 1] == s[k]);
    }
}

proof fn lemma_stored_voice_first(s: Seq<StoredVoiceChannel>, k: int)
    requires
        0 <= k < s.len(),
        forall|j: int| 0 <= j < k ==> (#[trigger] s[j]).id != s[k].id,
    ensures
        spec_stored_voice_at(s, s[k].id) == Some(s[k]),
    decreases k,
{
    if k > 0 {
        assert(s[0].id != s[k].id);
        assert forall|j: int| 0 <= j < k - 1 implies (#[trigger] s.drop_first()[j]).id
            != s.drop_first()[k - 1].id by {
            assert(s.drop_first()[j] == s[j + 1]);
            assert(s.drop_first()[k - 1] == s[k]);
        }
        lemma_stored_voice_first(s.drop_first(), k - 1);
        assert(s.drop_first()[k - 1] == s[k]);
    }
}

proof fn lemma_stored_voice_some(s: Seq<StoredVoiceChannel>, k: int)
    requires
        0 <= k < s.len(),
    ensures
        spec_stored_voice_at(s, s[k].id) is Some,
    decreases k,
{
    if s[0].id != s[k].id {
        lemma_stored_voice_some(s.drop_first(), k - 1);
        assert(s.drop_first()[k - 1] == s[k]);
    }
}

/// Rebuilds a guild's cached state on a full resync: prior cached state
/// for the guild is discarded, the guild is recorded with its stored
/// settings, and the store's category and voice-channel rows are cached
/// with the overwrites and live membership the platform snapshot reports.
/// Entities of other guilds are left alone.
pub fn rebuild_guild(
    cache: &mut Cache,
    guild_id: u64,
    bot_role_id: u64,
    permanence: bool,
    privacy: Privacy,
    stored_categories: &Vec<StoredCategoryChannel>,
    stored_voice: &Vec<StoredVoiceChannel>,
    channels: &Vec<ChannelSnapshot>,
    presences: &Vec<PresenceSnapshot>,
)
    requires
        old(cache).wf(),
    ensures
        final(cache).wf(),
        final(cache).guild_map().contains_key(guild_id),
        final(cache).guild_map()[guild_id].bot_role_id == bot_role_id,
        final(cache).guild_map()[guild_id].permanence == permanence,
        final(cache).guild_map()[guild_id].privacy == privacy,
        final(cache).unavailable_set() == old(cache).unavailable_set().remove(guild_id),
        // Entities of other guilds are untouched.
        forall|g: u64|
            g != guild_id ==> #[trigger] final(cache).guild_map().contains_key(g) == old(cache).guild_map().contains_key(g),
        forall|g: u64|
            g != guild_id && #[trigger] final(cache).guild_map().contains_key(g) ==> final(cache).guild_map()[g] == old(cache).guild_map()[g],
        forall|c: u64|
            old(cache).category_map().contains_key(c) && (#[trigger] old(cache).category_map()[c]).guild_id != guild_id ==> final(cache).category_map().contains_key(c) && final(cache).category_map()[c] == old(cache).category_map()[c],
        forall|v: u64|
            old(cache).voice_map().contains_key(v) && (#[trigger] old(cache).voice_map()[v]).guild_id != guild_id ==> {
                let av = old(cache).voice_map()[v];
                let bv = final(cache).voice_map()[v];
                &&& final(cache).voice_map().contains_key(v)
                &&& bv.guild_id == av.guild_id
                &&& bv.id == av.id
                &&& bv.owner_id == av.owner_id
                &&& bv.panel_message_id == av.panel_message_id
                &&& bv.parent_id == av.parent_id
                &&& bv.permission_overwrites@ == av.permission_overwrites@
                &&& forall|u: u64|
                    #[trigger] bv.connected_user_ids@.contains(u)
                        == av.connected_user_ids@.contains(u)
            },
        // Prior state of this guild is discarded: every cached category of
        // the guild stems from its first store row and carries the
        // snapshot's overwrites; its trigger is the stored one, or absent
        // when the stored id cannot be a trigger.
        forall|c: u64|
            #[trigger] final(cache).category_map().contains_key(c) && final(cache).category_map()[c].guild_id == guild_id ==> {
                let row = spec_stored_category_at(stored_categories@, c);
                &&& row is Some
                &&& final(cache).category_map()[c].permission_overwrites@
                    == spec_snapshot_overwrites(channels@, c, ChannelKind::Category)
                &&& (final(cache).category_map()[c].join_channel_id == row->0.join_channel_id
                    || final(cache).category_map()[c].join_channel_id is None)
            },
        // Every cached voice channel of the guild stems from a store row:
        // snapshot overwrites, members only from the snapshot, and - with
        // one row per id, as a keyed store guarantees - the stored parent
        // and panel message, and the stored owner unless a duplicate owner
        // in the store retargeted that user to a later channel.
        forall|v: u64|
            #[trigger] final(cache).voice_map().contains_key(v) && final(cache).voice_map()[v].guild_id == guild_id ==> {
                let row = spec_stored_voice_at(stored_voice@, v);
                &&& row is Some
                &&& final(cache).voice_map()[v].permission_overwrites@
                    == spec_snapshot_overwrites(channels@, v, ChannelKind::Voice)
                &&& forall|u: u64|
                    #[trigger] final(cache).voice_map()[v].connected_user_ids@.contains(u)
                        ==> spec_users_in_channel(presences@, v).contains(u)
                &&& (distinct_voice_ids(stored_voice@) ==> {
                    &&& final(cache).voice_map()[v].parent_id == row->0.parent_id
                    &&& final(cache).voice_map()[v].panel_message_id
                        == row->0.panel_message_id
                    &&& (final(cache).voice_map()[v].owner_id == row->0.owner_id || (final(cache).voice_map()[v].owner_id is None && row->0.owner_id is Some && final(cache).owner_at(guild_id, row->0.owner_id->0) is Some && final(cache).owner_at(
                        guild_id,
                        row->0.owner_id->0,
                    ) != Some(v)))
                })
            },
        // Every store row lands.
        forall|k: int|
            0 <= k < stored_categories@.len() ==> final(cache).category_map().contains_key(
                (#[trigger] stored_categories@[k]).id,
            ),
        forall|k: int|
            0 <= k < stored_voice@.len() ==> {
                let r = #[trigger] stored_voice@[k];
                (final(cache).category_map().contains_key(r.parent_id) && final(cache).category_map()[r.parent_id].guild_id == guild_id && !final(cache).join_map().contains_key(r.id)) ==> final(cache).voice_map().contains_key(r.id)
            },
        // Each cached row's live members are tracked somewhere in the guild.
        forall|k: int, u: u64|
            0 <= k < stored_voice@.len() && final(cache).voice_map().contains_key(
                (#[trigger] stored_voice@[k]).id,
            ) && final(cache).voice_map()[stored_voice@[k].id].guild_id == guild_id
                && #[trigger] spec_users_in_channel(presences@, stored_voice@[k].id).contains(u)
                ==> final(cache).presence_at(guild_id, u) is Some,
{
    cache.remove_guild(guild_id);
    cache.insert_guild(guild_id, bot_role_id, permanence, privacy);
    let ghost m0 = *cache;
    proof {
        assert forall|c: u64| #[trigger] m0.category_map().contains_key(c) implies old(cache).category_map().contains_key(c) && m0.category_map()[c] == old(cache).category_map()[c] && m0.category_map()[c].guild_id != guild_id by {}
        assert forall|c: u64|
            old(cache).category_map().contains_key(c) && (#[trigger] old(cache).category_map()[c]).guild_id != guild_id
            implies m0.category_map().contains_key(c) by {}
        assert forall|v: u64| #[trigger] m0.voice_map().contains_key(v) implies old(cache).voice_map().contains_key(v) && m0.voice_map()[v] == old(cache).voice_map()[v]
            && m0.voice_map()[v].guild_id != guild_id by {
            assert(old(cache).category_map().contains_key(
                old(cache).voice_map()[v].parent_id,
            ));
        }
        assert forall|v: u64|
            old(cache).voice_map().contains_key(v) && (#[trigger] old(cache).voice_map()[v]).guild_id != guild_id
            implies m0.voice_map().contains_key(v) by {
            assert(old(cache).category_map().contains_key(
                old(cache).voice_map()[v].parent_id,
            ));
        }
    }
    let mut i: usize = 0;
    while i < stored_categories.len()
        invariant
            cache.wf(),
            i <= stored_categories@.len(),
            cache.guild_map().contains_key(guild_id),
            cache.guild_map()[guild_id].bot_role_id == bot_role_id,
            cache.guild_map()[guild_id].permanence == permanence,
            cache.guild_map()[guild_id].privacy == privacy,
            cache.unavailable_set() == m0.unavailable_set(),
            forall|g: u64|
                g != guild_id ==> #[trigger] cache.guild_map().contains_key(g)
                    == m0.guild_map().contains_key(g),
            forall|g: u64|
                g != guild_id && #[trigger] cache.guild_map().contains_key(g)
                    ==> cache.guild_map()[g] == m0.guild_map()[g],
            cache.voice_map() == m0.voice_map(),
            forall|c: u64| #[trigger] m0.category_map().contains_key(c)
                ==> m0.category_map()[c].guild_id != guild_id,
            forall|c: u64| #[trigger] m0.category_map().contains_key(c)
                ==> cache.category_map().contains_key(c) && cache.category_map()[c]
                    == m0.category_map()[c],
            forall|c: u64|
                #[trigger] cache.category_map().contains_key(c)
                    && !m0.category_map().contains_key(c) ==> {
                    let row = spec_stored_category_at(stored_categories@, c);
                    &&& row is Some
                    &&& cache.category_map()[c].guild_id == guild_id
                    &&& cache.category_map()[c].permission_overwrites@
                        == spec_snapshot_overwrites(channels@, c, ChannelKind::Category)
                    &&& (cache.category_map()[c].join_channel_id == row->0.join_channel_id
                        || cache.category_map()[c].join_channel_id is None)
                },
            forall|k: int|
                0 <= k < i ==> cache.category_map().contains_key(
                    (#[trigger] stored_categories@[k]).id,
                ),
        decreases stored_categories@.len() - i,
    {
        let sc = &stored_categories[i];
        let overwrites = snapshot_overwrites(channels, sc.id, ChannelKind::Category);
        let ghost before = *cache;
        cache.insert_category_channel(guild_id, sc.id, sc.join_channel_id, overwrites);
        proof {
            if !before.category_map().contains_key(sc.id) {
                assert forall|jj: int|
                    0 <= jj < i implies (#[trigger] stored_categories@[jj]).id != sc.id by {
                    assert(before.category_map().contains_key(stored_categories@[jj].id));
                }
                assert(stored_categories@[i as int].id == sc.id);
                lemma_stored_category_first(stored_categories@, i as int);
            }
        }
        i += 1;
    }
    let ghost m1 = *cache;
    let mut j: usize = 0;
    while j < stored_voice.len()
        invariant
            cache.wf(),
            j <= stored_voice@.len(),
            cache.guild_map() == m1.guild_map(),
            cache.unavailable_set() == m1.unavailable_set(),
            cache.join_map() == m1.join_map(),
            cache.category_map().dom() == m1.category_map().dom(),
            forall|v: u64| #[trigger] m0.voice_map().contains_key(v)
                ==> m0.voice_map()[v].guild_id != guild_id,
            forall|c: u64| #[trigger] m0.category_map().contains_key(c)
                ==> m1.category_map().contains_key(c) && m1.category_map()[c].guild_id
                    != guild_id,
            forall|c: u64| #[trigger] cache.category_map().contains_key(c) ==> {
                let mc = m1.category_map()[c];
                let bc = cache.category_map()[c];
                &&& bc.guild_id == mc.guild_id
                &&& bc.id == mc.id
                &&& bc.join_channel_id == mc.join_channel_id
                &&& bc.permission_overwrites@ == mc.permission_overwrites@
            },
            forall|c: u64| #[trigger] m0.category_map().contains_key(c)
                ==> cache.category_map().contains_key(c) && cache.category_map()[c]
                    == m1.category_map()[c],
            forall|v: u64| #[trigger] m0.voice_map().contains_key(v) ==> {
                let mv = m0.voice_map()[v];
                let bv = cache.voice_map()[v];
                &&& cache.voice_map().contains_key(v)
                &&& bv.guild_id == mv.guild_id
                &&& bv.id == mv.id
                &&& bv.owner_id == mv.owner_id
                &&& bv.panel_message_id == mv.panel_message_id
                &&& bv.parent_id == mv.parent_id
                &&& bv.permission_overwrites@ == mv.permission_overwrites@
                &&& forall|u: u64|
                    #[trigger] bv.connected_user_ids@.contains(u)
                        == mv.connected_user_ids@.contains(u)
            },
            forall|v: u64|
                #[trigger] cache.voice_map().contains_key(v)
                    && !m0.voice_map().contains_key(v) ==> {
                    let row = spec_stored_voice_at(stored_voice@, v);
                    &&& row is Some
                    &&& cache.voice_map()[v].guild_id == guild_id
                    &&& cache.voice_map()[v].permission_overwrites@
                        == spec_snapshot_overwrites(channels@, v, ChannelKind::Voice)
                    &&& forall|u: u64|
                        #[trigger] cache.voice_map()[v].connected_user_ids@.contains(u)
                            ==> spec_users_in_channel(presences@, v).contains(u)
                    &&& (distinct_voice_ids(stored_voice@) ==> {
                        &&& cache.voice_map()[v].parent_id == row->0.parent_id
                        &&& cache.voice_map()[v].panel_message_id
                            == row->0.panel_message_id
                        &&& (cache.voice_map()[v].owner_id == row->0.owner_id || (
                        cache.voice_map()[v].owner_id is None && row->0.owner_id is Some
                            && cache.owner_at(guild_id, row->0.owner_id->0) is Some
                            && cache.owner_at(guild_id, row->0.owner_id->0) != Some(v)))
                    })
                },
            forall|k: int|
                0 <= k < j ==> {
                    let r = #[trigger] stored_voice@[k];
                    (cache.category_map().contains_key(r.parent_id)
                        && cache.category_map()[r.parent_id].guild_id == guild_id
                        && !cache.join_map().contains_key(r.id))
                        ==> cache.voice_map().contains_key(r.id)
                },
            forall|v: u64, u: u64|
                #[trigger] cache.voice_map().contains_key(v)
                    && !m0.voice_map().contains_key(v) && #[trigger] spec_users_in_channel(
                    presences@,
                    v,
                ).contains(u) ==> cache.presence_at(guild_id, u) is Some,
        decreases stored_voice@.len() - j,
    {
        let sv = &stored_voice[j];
        let overwrites = snapshot_overwrites(channels, sv.id, ChannelKind::Voice);
        let connected = users_in_channel(presences, sv.id);
        let ghost connected_view: Seq<u64> = connected@;
        let ghost before = *cache;
        cache.insert_voice_channel(
            connected,
            guild_id,
            sv.id,
            sv.owner_id,
            sv.panel_message_id,
            sv.parent_id,
            overwrites,
        );
        proof {
            let b = *cache;
            let applied = before.voice_insertable(guild_id, sv.id, sv.parent_id);
            if applied {
                assert(b.voice_map().contains_key(sv.id));
                assert(!m0.voice_map().contains_key(sv.id));
                assert(stored_voice@[j as int].id == sv.id);
                lemma_stored_voice_some(stored_voice@, j as int);
                if distinct_voice_ids(stored_voice@) {
                    lemma_stored_voice_first(stored_voice@, j as int);
                }
            }
            assert forall|c: u64| #[trigger] m0.category_map().contains_key(c)
                implies b.category_map().contains_key(c) && b.category_map()[c]
                    == m1.category_map()[c] by {
                if applied {
                    assert(before.category_map()[sv.parent_id].guild_id == guild_id);
                    assert(c != sv.parent_id);
                }
                assert(b.category_map()[c] == before.category_map()[c]);
            }
            assert forall|v: u64|
                #[trigger] b.voice_map().contains_key(v) && !m0.voice_map().contains_key(v)
                    implies {
                    let row = spec_stored_voice_at(stored_voice@, v);
                    &&& row is Some
                    &&& b.voice_map()[v].guild_id == guild_id
                    &&& b.voice_map()[v].permission_overwrites@
                        == spec_snapshot_overwrites(channels@, v, ChannelKind::Voice)
                    &&& forall|u: u64|
                        #[trigger] b.voice_map()[v].connected_user_ids@.contains(u)
                            ==> spec_users_in_channel(presences@, v).contains(u)
                    &&& (distinct_voice_ids(stored_voice@) ==> {
                        &&& b.voice_map()[v].parent_id == row->0.parent_id
                        &&& b.voice_map()[v].panel_message_id == row->0.panel_message_id
                        &&& (b.voice_map()[v].owner_id == row->0.owner_id || (
                        b.voice_map()[v].owner_id is None && row->0.owner_id is Some
                            && b.owner_at(guild_id, row->0.owner_id->0) is Some
                            && b.owner_at(guild_id, row->0.owner_id->0) != Some(v)))
                    })
                } by {
                if applied && v == sv.id {
                } else {
                    assert(before.voice_map().contains_key(v));
                    let row = spec_stored_voice_at(stored_voice@, v);
                    assert(row is Some);
                    if applied && distinct_voice_ids(stored_voice@) {
                        if before.voice_map()[v].owner_id == row->0.owner_id {
                            if b.voice_map()[v].owner_id != before.voice_map()[v].owner_id {
                                assert(b.voice_map()[v].owner_id is None);
                                assert(before.voice_map()[v].owner_id == sv.owner_id);
                                assert(b.owner_at(guild_id, sv.owner_id->0) == Some(sv.id));
                            }
                        } else {
                            assert(before.voice_map()[v].owner_id is None);
                            assert(b.voice_map()[v].owner_id is None);
                            let u0 = row->0.owner_id->0;
                            assert(before.owner_at(guild_id, u0) is Some);
                            assert(before.owner_at(guild_id, u0) != Some(v));
                            if sv.owner_id == Some(u0) {
                                assert(b.owner_at(guild_id, u0) == Some(sv.id));
                                assert(sv.id != v);
                            } else {
                                assert(b.owner_at(guild_id, u0)
                                    == before.owner_at(guild_id, u0));
                            }
                        }
                    }
                }
            }
            assert forall|v: u64, u: u64|
                #[trigger] b.voice_map().contains_key(v) && !m0.voice_map().contains_key(v)
                    && #[trigger] spec_users_in_channel(presences@, v).contains(u)
                    implies b.presence_at(guild_id, u) is Some by {
                if applied {
                    if v == sv.id {
                        assert(connected_view.contains(u));
                        assert(b.presence_at(guild_id, u) == Some(sv.id));
                    } else {
                        assert(before.voice_map().contains_key(v));
                        assert(before.presence_at(guild_id, u) is Some);
                    }
                } else {
                    assert(before.voice_map().contains_key(v));
                    assert(before.presence_at(guild_id, u) is Some);
                    assert(b.presence_at(guild_id, u) == before.presence_at(guild_id, u));
                }
            }
        }
        j += 1;
    }
    proof {
        let b = *cache;
        assert forall|v: u64|
            #[trigger] b.voice_map().contains_key(v) && b.voice_map()[v].guild_id == guild_id
            implies !m0.voice_map().contains_key(v) by {}
        assert forall|c: u64|
            #[trigger] b.category_map().contains_key(c) && b.category_map()[c].guild_id
                == guild_id implies !m0.category_map().contains_key(c) by {}
    }
}

} // verus!

