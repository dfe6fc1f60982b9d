//! The lifecycle controller: provisioning on trigger-join, cleanup of
//! empty rooms, ownership decisions, panel upkeep and the guild commands.

use voice_rooms::cache::Cache;
use voice_rooms::lifecycle::{
    channel_delete_action, claim_decision, create_category_decision, ensure_panel_message,
    find_bot_role, join_channel_decision, kick_decision, live_channel_ids, panel_message_deleted,
    permanence_update_decision, privacy_update_decision, rebuild_guild, remove_category_targets,
    snapshot_overwrites, transfer_decision, users_in_channel, voice_parent_pairs,
    voice_state_update, CategoryPlanOutcome, ChannelDeleteAction, ChannelKind, ChannelSnapshot,
    ClaimOutcome, JoinChannelOutcome, KickOutcome, PanelAction, PermanenceOutcome,
    PresenceSnapshot, PrivacyOutcome, RemoveCategoryOutcome, RoleInfo, StoredCategoryChannel,
    StoredVoiceChannel, TransferOutcome,
};
use voice_rooms::perms::{Overwrite, OverwriteKind, Privacy, CONNECT, VIEW_CHANNEL};

const GUILD: u64 = 100;
const BOT_ROLE: u64 = 7;
const BOT_USER: u64 = 8;
const CAT: u64 = 200;
const JOIN: u64 = 201;
const VOICE: u64 = 300;
const USER: u64 = 400;

fn role(id: u64, allow: u64, deny: u64) -> Overwrite {
    Overwrite { id, kind: OverwriteKind::Role, allow, deny }
}

fn member(id: u64, allow: u64, deny: u64) -> Overwrite {
    Overwrite { id, kind: OverwriteKind::Member, allow, deny }
}

fn guild_with_category(privacy: Privacy, permanence: bool) -> Cache {
    let mut cache = Cache::new();
    cache.insert_guild(GUILD, BOT_ROLE, permanence, privacy);
    cache.insert_category_channel(
        GUILD,
        CAT,
        Some(JOIN),
        vec![role(BOT_ROLE, CONNECT | VIEW_CHANNEL, 0)],
    );
    cache
}

#[test]
fn provision_on_trigger_join() {
    // A user joins the category's trigger channel while owning no room:
    // the plan names the room after them, under the category, with the
    // template-derived overwrites, and the presence is tracked once the
    // created channel is cached with them inside.
    let mut cache = guild_with_category(Privacy::Unlocked, false);
    let actions = voice_state_update(&mut cache, GUILD, USER, Some(JOIN), Some("Alex"));
    assert!(actions.delete_channel.is_none());
    let plan = actions.provision.expect("a trigger join provisions");
    assert_eq!(plan.category_id, CAT);
    assert_eq!(plan.channel_name, "Alex's voice");
    assert_eq!(
        plan.permission_overwrites,
        vec![
            role(BOT_ROLE, CONNECT | VIEW_CHANNEL, 0),
            role(GUILD, 0, 0),
            member(USER, 0, 0),
        ]
    );
    // The caller creates the channel remotely, persists it, and commits.
    cache.insert_voice_channel(
        vec![USER],
        GUILD,
        VOICE,
        Some(USER),
        Some(900),
        plan.category_id,
        plan.permission_overwrites,
    );
    assert_eq!(cache.voice_channel_owner(GUILD, USER), Some(VOICE));
    assert_eq!(cache.voice_state(GUILD, USER), Some(VOICE));
}

#[test]
fn provision_name_for_name_ending_in_s() {
    let mut cache = guild_with_category(Privacy::Unlocked, false);
    let actions = voice_state_update(&mut cache, GUILD, USER, Some(JOIN), Some("Chris"));
    let plan = actions.provision.expect("a trigger join provisions");
    assert_eq!(plan.channel_name, "Chris' voice");
}

#[test]
fn no_provision_when_user_owns_a_room() {
    let mut cache = guild_with_category(Privacy::Unlocked, false);
    cache.insert_voice_channel(Vec::new(), GUILD, VOICE, Some(USER), None, CAT, Vec::new());
    let actions = voice_state_update(&mut cache, GUILD, USER, Some(JOIN), Some("Alex"));
    assert!(actions.provision.is_none());
}

#[test]
fn no_provision_on_ordinary_move() {
    let mut cache = guild_with_category(Privacy::Unlocked, false);
    let actions = voice_state_update(&mut cache, GUILD, USER, Some(12345), Some("Alex"));
    assert!(actions.provision.is_none());
    assert!(actions.delete_channel.is_none());
}

#[test]
fn last_leaver_triggers_deletion_not_removal() {
    // The last user leaves a temporary channel in a guild without
    // permanence: the remote delete is requested, the cache entry stays
    // until the platform confirms the deletion, and only then the entity
    // and its indices fall.
    let mut cache = guild_with_category(Privacy::Unlocked, false);
    cache.insert_voice_channel(vec![USER], GUILD, VOICE, Some(USER), None, CAT, Vec::new());
    let actions = voice_state_update(&mut cache, GUILD, USER, None, None);
    assert_eq!(actions.delete_channel, Some(VOICE));
    assert!(cache.voice_channel(VOICE).is_some());
    assert_eq!(cache.voice_state(GUILD, USER), None);
    // The platform confirms the deletion.
    cache.remove_voice_channel(VOICE);
    assert!(cache.voice_channel(VOICE).is_none());
    assert_eq!(cache.voice_channel_owner(GUILD, USER), None);
}

#[test]
fn permanence_keeps_empty_channels() {
    let mut cache = guild_with_category(Privacy::Unlocked, true);
    cache.insert_voice_channel(vec![USER], GUILD, VOICE, Some(USER), None, CAT, Vec::new());
    let actions = voice_state_update(&mut cache, GUILD, USER, None, None);
    assert!(actions.delete_channel.is_none());
}

#[test]
fn still_occupied_channel_is_not_deleted() {
    let mut cache = guild_with_category(Privacy::Unlocked, false);
    cache.insert_voice_channel(vec![USER, 401], GUILD, VOICE, None, None, CAT, Vec::new());
    let actions = voice_state_update(&mut cache, GUILD, USER, None, None);
    assert!(actions.delete_channel.is_none());
}

#[test]
fn panel_message_idempotence() {
    // First check: nothing recorded, so one create happens.
    let first = ensure_panel_message(None, false);
    assert_eq!(first, PanelAction::Create);
    let created: u64 = 900;
    // Second check while the message still exists: same id, no create.
    let second = ensure_panel_message(Some(created), true);
    assert_eq!(second, PanelAction::Keep(created));
    // Only a deleted message is recreated.
    assert_eq!(ensure_panel_message(Some(created), false), PanelAction::Create);
}

#[test]
fn claim_rules() {
    let mut cache = guild_with_category(Privacy::Unlocked, false);
    cache.insert_voice_channel(Vec::new(), GUILD, VOICE, None, None, CAT, Vec::new());
    assert_eq!(claim_decision(&cache, 999, USER), ClaimOutcome::UnknownChannel);
    assert_eq!(claim_decision(&cache, VOICE, USER), ClaimOutcome::Granted);
    cache.update_voice_channel_owner(VOICE, Some(USER));
    assert_eq!(claim_decision(&cache, VOICE, 401), ClaimOutcome::HasOwner);
    assert_eq!(claim_decision(&cache, VOICE, USER), ClaimOutcome::ClaimantOwnsChannel);
}

#[test]
fn transfer_rules() {
    let mut cache = guild_with_category(Privacy::Unlocked, false);
    cache.insert_voice_channel(Vec::new(), GUILD, VOICE, Some(USER), None, CAT, Vec::new());
    cache.insert_voice_channel(Vec::new(), GUILD, 301, Some(401), None, CAT, Vec::new());
    assert_eq!(transfer_decision(&cache, 999, 402, false), TransferOutcome::UnknownChannel);
    assert_eq!(transfer_decision(&cache, VOICE, 402, true), TransferOutcome::TargetIsBot);
    assert_eq!(transfer_decision(&cache, VOICE, 401, false), TransferOutcome::TargetOwnsChannel);
    assert_eq!(transfer_decision(&cache, VOICE, 402, false), TransferOutcome::Granted);
}

#[test]
fn kick_rules() {
    let mut cache = guild_with_category(Privacy::Unlocked, false);
    cache.insert_voice_channel(vec![USER, 401], GUILD, VOICE, Some(USER), None, CAT, Vec::new());
    assert_eq!(
        kick_decision(&cache, 999, 401, BOT_USER, USER),
        KickOutcome::UnknownChannel
    );
    assert_eq!(kick_decision(&cache, VOICE, USER, BOT_USER, 401), KickOutcome::Protected);
    assert_eq!(
        kick_decision(&cache, VOICE, BOT_USER, BOT_USER, USER),
        KickOutcome::Protected
    );
    assert_eq!(kick_decision(&cache, VOICE, 401, BOT_USER, 401), KickOutcome::Protected);
    assert_eq!(kick_decision(&cache, VOICE, 555, BOT_USER, USER), KickOutcome::NotConnected);
    assert_eq!(kick_decision(&cache, VOICE, 401, BOT_USER, USER), KickOutcome::Kick);
}

#[test]
fn fourth_category_is_rejected() {
    // Three categories exist; the fourth create attempt is rejected with
    // no remote call to make.
    let mut cache = Cache::new();
    cache.insert_guild(GUILD, BOT_ROLE, false, Privacy::Unlocked);
    cache.insert_category_channel(GUILD, 200, None, Vec::new());
    cache.insert_category_channel(GUILD, 210, None, Vec::new());
    cache.insert_category_channel(GUILD, 220, None, Vec::new());
    let r = create_category_decision(&cache, GUILD);
    assert!(matches!(r, CategoryPlanOutcome::LimitReached));
}

#[test]
fn category_creation_plan() {
    let mut cache = Cache::new();
    cache.insert_guild(GUILD, BOT_ROLE, false, Privacy::Invisible);
    assert!(matches!(
        create_category_decision(&cache, 999),
        CategoryPlanOutcome::UnknownGuild
    ));
    match create_category_decision(&cache, GUILD) {
        CategoryPlanOutcome::Create { category_overwrites, join_overwrites } => {
            assert_eq!(
                category_overwrites,
                vec![role(GUILD, 0, VIEW_CHANNEL), role(BOT_ROLE, VIEW_CHANNEL, 0)]
            );
            assert_eq!(join_overwrites, vec![role(BOT_ROLE, CONNECT | VIEW_CHANNEL, 0)]);
        },
        _ => panic!("a first category must be allowed"),
    }
}

#[test]
fn join_channel_command() {
    let mut cache = guild_with_category(Privacy::Unlocked, false);
    assert!(matches!(
        join_channel_decision(&cache, 999),
        JoinChannelOutcome::NotCategory
    ));
    assert!(matches!(
        join_channel_decision(&cache, CAT),
        JoinChannelOutcome::AlreadyHasJoin
    ));
    cache.update_join_channel(CAT, None);
    match join_channel_decision(&cache, CAT) {
        JoinChannelOutcome::Create { overwrites } => {
            assert_eq!(overwrites, vec![role(BOT_ROLE, CONNECT | VIEW_CHANNEL, 0)]);
        },
        _ => panic!("a category without a trigger gets one"),
    }
}

#[test]
fn remove_category_command() {
    let mut cache = guild_with_category(Privacy::Unlocked, false);
    cache.insert_voice_channel(Vec::new(), GUILD, VOICE, None, None, CAT, Vec::new());
    assert!(matches!(
        remove_category_targets(&cache, 999, CAT),
        RemoveCategoryOutcome::UnknownGuild
    ));
    assert!(matches!(
        remove_category_targets(&cache, GUILD, 555),
        RemoveCategoryOutcome::NotCategory
    ));
    match remove_category_targets(&cache, GUILD, CAT) {
        RemoveCategoryOutcome::Remove(ids) => {
            assert_eq!(ids.len(), 3);
            assert!(ids.contains(&VOICE));
            assert!(ids.contains(&CAT));
            assert!(ids.contains(&JOIN));
        },
        _ => panic!("a cached category is removable"),
    }
    let mut empty = Cache::new();
    empty.insert_guild(GUILD, BOT_ROLE, false, Privacy::Unlocked);
    assert!(matches!(
        remove_category_targets(&empty, GUILD, CAT),
        RemoveCategoryOutcome::NoCategories
    ));
}

#[test]
fn permanence_command() {
    let mut cache = guild_with_category(Privacy::Unlocked, false);
    cache.insert_voice_channel(Vec::new(), GUILD, VOICE, None, None, CAT, Vec::new());
    cache.insert_voice_channel(vec![USER], GUILD, 301, None, None, CAT, Vec::new());
    assert!(matches!(
        permanence_update_decision(&cache, GUILD, false),
        PermanenceOutcome::NoChange
    ));
    match permanence_update_decision(&cache, GUILD, true) {
        PermanenceOutcome::Apply(ids) => assert!(ids.is_empty()),
        _ => panic!("switching permanence on applies"),
    }
    cache.update_permanence(GUILD, true);
    match permanence_update_decision(&cache, GUILD, false) {
        PermanenceOutcome::Apply(ids) => {
            // Only the empty channel is swept.
            assert_eq!(ids, vec![VOICE]);
        },
        _ => panic!("switching permanence off applies"),
    }
}

#[test]
fn privacy_command() {
    let mut cache = guild_with_category(Privacy::Unlocked, false);
    assert!(matches!(
        privacy_update_decision(&cache, GUILD, Privacy::Unlocked),
        PrivacyOutcome::NoChange
    ));
    match privacy_update_decision(&cache, GUILD, Privacy::Invisible) {
        PrivacyOutcome::Apply(updates) => {
            assert_eq!(updates.len(), 1);
            assert_eq!(updates[0].category_id, CAT);
            assert_eq!(updates[0].join_channel_id, Some(JOIN));
            assert_eq!(updates[0].allow, 0);
            assert_eq!(updates[0].deny, VIEW_CHANNEL);
        },
        _ => panic!("a privacy change applies"),
    }
}

#[test]
fn channel_delete_event() {
    let mut cache = guild_with_category(Privacy::Unlocked, false);
    cache.insert_voice_channel(Vec::new(), GUILD, VOICE, None, None, CAT, Vec::new());
    assert_eq!(
        channel_delete_action(&cache, CAT, ChannelKind::Category),
        ChannelDeleteAction::RemoveCategory
    );
    assert_eq!(
        channel_delete_action(&cache, JOIN, ChannelKind::Voice),
        ChannelDeleteAction::ClearJoin(CAT)
    );
    assert_eq!(
        channel_delete_action(&cache, VOICE, ChannelKind::Voice),
        ChannelDeleteAction::RemoveVoice
    );
    assert_eq!(
        channel_delete_action(&cache, VOICE, ChannelKind::Other),
        ChannelDeleteAction::Ignore
    );
}

#[test]
fn panel_message_delete_event() {
    let mut cache = guild_with_category(Privacy::Unlocked, false);
    cache.insert_voice_channel(Vec::new(), GUILD, VOICE, None, Some(900), CAT, Vec::new());
    assert!(panel_message_deleted(&cache, VOICE, 900));
    assert!(!panel_message_deleted(&cache, VOICE, 901));
    assert!(!panel_message_deleted(&cache, 999, 900));
}

#[test]
fn bot_role_lookup() {
    let roles = vec![
        RoleInfo { id: 1, bot_id: None },
        RoleInfo { id: 2, bot_id: Some(55) },
        RoleInfo { id: 3, bot_id: Some(BOT_USER) },
    ];
    assert_eq!(find_bot_role(&roles, BOT_USER), Some(3));
    assert_eq!(find_bot_role(&roles, 77), None);
}

#[test]
fn snapshot_filters() {
    let channels = vec![
        ChannelSnapshot {
            id: CAT,
            kind: ChannelKind::Category,
            parent_id: None,
            permission_overwrites: vec![role(GUILD, 0, 0)],
        },
        ChannelSnapshot {
            id: VOICE,
            kind: ChannelKind::Voice,
            parent_id: Some(CAT),
            permission_overwrites: vec![member(USER, 1, 0)],
        },
        ChannelSnapshot {
            id: 555,
            kind: ChannelKind::Other,
            parent_id: None,
            permission_overwrites: Vec::new(),
        },
    ];
    assert_eq!(live_channel_ids(&channels), vec![CAT, VOICE]);
    assert_eq!(voice_parent_pairs(&channels), vec![(VOICE, CAT)]);
    assert_eq!(
        snapshot_overwrites(&channels, VOICE, ChannelKind::Voice),
        vec![member(USER, 1, 0)]
    );
    assert!(snapshot_overwrites(&channels, 555, ChannelKind::Voice).is_empty());
    let presences = vec![
        PresenceSnapshot { channel_id: Some(VOICE), user_id: USER },
        PresenceSnapshot { channel_id: Some(555), user_id: 401 },
        PresenceSnapshot { channel_id: None, user_id: 402 },
    ];
    assert_eq!(users_in_channel(&presences, VOICE), vec![USER]);
}

#[test]
fn rebuild_replaces_guild_state() {
    let mut cache = guild_with_category(Privacy::Unlocked, false);
    cache.insert_voice_channel(vec![USER], GUILD, VOICE, Some(USER), None, CAT, Vec::new());
    // The resync drops prior state and rebuilds from the store and the
    // platform snapshot.
    let stored_categories = vec![StoredCategoryChannel { id: 210, join_channel_id: Some(211) }];
    let stored_voice = vec![StoredVoiceChannel {
        id: 310,
        parent_id: 210,
        owner_id: Some(USER),
        panel_message_id: None,
    }];
    let channels = vec![ChannelSnapshot {
        id: 210,
        kind: ChannelKind::Category,
        parent_id: None,
        permission_overwrites: vec![role(GUILD, 0, 0)],
    }];
    let presences = vec![PresenceSnapshot { channel_id: Some(310), user_id: USER }];
    rebuild_guild(
        &mut cache,
        GUILD,
        BOT_ROLE,
        true,
        Privacy::Locked,
        &stored_categories,
        &stored_voice,
        &channels,
        &presences,
    );
    let g = cache.guild(GUILD).unwrap();
    assert!(g.permanence);
    assert_eq!(g.privacy, Privacy::Locked);
    assert!(cache.category_channel(CAT).is_none());
    assert!(cache.voice_channel(VOICE).is_none());
    let cat = cache.category_channel(210).unwrap();
    assert_eq!(cat.join_channel_id, Some(211));
    let vc = cache.voice_channel(310).unwrap();
    assert_eq!(vc.owner_id, Some(USER));
    assert!(vc.connected_user_ids.contains(&USER));
    assert_eq!(cache.voice_state(GUILD, USER), Some(310));
    assert_eq!(cache.voice_channel_owner(GUILD, USER), Some(310));
}

#[test]
fn resync_restores_state_from_the_store() {
    // A restart: the cache starts empty, and the resync carries the stored
    // owner, panel message and trigger back in, with the overwrites and
    // membership the platform snapshot reports.
    let mut cache = Cache::new();
    let stored_categories = vec![StoredCategoryChannel { id: CAT, join_channel_id: Some(JOIN) }];
    let stored_voice = vec![StoredVoiceChannel {
        id: VOICE,
        parent_id: CAT,
        owner_id: Some(USER),
        panel_message_id: Some(900),
    }];
    let channels = vec![
        ChannelSnapshot {
            id: CAT,
            kind: ChannelKind::Category,
            parent_id: None,
            permission_overwrites: vec![role(GUILD, 0, VIEW_CHANNEL)],
        },
        ChannelSnapshot {
            id: VOICE,
            kind: ChannelKind::Voice,
            parent_id: Some(CAT),
            permission_overwrites: vec![member(USER, CONNECT, 0)],
        },
    ];
    let presences = vec![PresenceSnapshot { channel_id: Some(VOICE), user_id: USER }];
    rebuild_guild(
        &mut cache,
        GUILD,
        BOT_ROLE,
        false,
        Privacy::Unlocked,
        &stored_categories,
        &stored_voice,
        &channels,
        &presences,
    );
    let cat = cache.category_channel(CAT).unwrap();
    assert_eq!(cat.join_channel_id, Some(JOIN));
    assert_eq!(cat.permission_overwrites, vec![role(GUILD, 0, VIEW_CHANNEL)]);
    let vc = cache.voice_channel(VOICE).unwrap();
    assert_eq!(vc.owner_id, Some(USER));
    assert_eq!(vc.panel_message_id, Some(900));
    assert_eq!(vc.parent_id, CAT);
    assert_eq!(vc.permission_overwrites, vec![member(USER, CONNECT, 0)]);
    assert_eq!(vc.connected_user_ids, vec![USER]);
    assert_eq!(cache.voice_channel_owner(GUILD, USER), Some(VOICE));
    assert_eq!(cache.voice_state(GUILD, USER), Some(VOICE));
}

#[test]
fn resync_leaves_other_guilds_alone() {
    let mut cache = guild_with_category(Privacy::Unlocked, false);
    cache.insert_voice_channel(vec![USER], GUILD, VOICE, Some(USER), None, CAT, Vec::new());
    // Another guild resyncs; this guild's state stays as it was.
    rebuild_guild(
        &mut cache,
        101,
        9,
        true,
        Privacy::Invisible,
        &Vec::new(),
        &Vec::new(),
        &Vec::new(),
        &Vec::new(),
    );
    assert_eq!(cache.guild(GUILD).unwrap().privacy, Privacy::Unlocked);
    assert_eq!(cache.category_channel(CAT).unwrap().join_channel_id, Some(JOIN));
    assert_eq!(cache.voice_channel(VOICE).unwrap().owner_id, Some(USER));
    assert_eq!(cache.voice_channel_owner(GUILD, USER), Some(VOICE));
    assert!(cache.guild(101).unwrap().permanence);
}
