//! The cache operations, exercised end to end: inserts, field updates,
//! presence and ownership bookkeeping, and the cascading removals.

use voice_rooms::cache::Cache;
use voice_rooms::perms::{Overwrite, OverwriteKind, Privacy};

const GUILD: u64 = 100;
const BOT_ROLE: u64 = 7;
const CAT: u64 = 200;
const JOIN: u64 = 201;
const VOICE: u64 = 300;
const OWNER: u64 = 400;
const OTHER: u64 = 401;

fn sample_cache() -> Cache {
    let mut cache = Cache::new();
    cache.insert_guild(GUILD, BOT_ROLE, false, Privacy::Unlocked);
    cache.insert_category_channel(GUILD, CAT, Some(JOIN), Vec::new());
    cache.insert_voice_channel(
        vec![OWNER, OTHER],
        GUILD,
        VOICE,
        Some(OWNER),
        Some(900),
        CAT,
        Vec::new(),
    );
    cache
}

#[test]
fn guild_insert_and_lookup() {
    let mut cache = Cache::new();
    cache.insert_unavailable_guild(GUILD);
    assert!(cache.is_guild_unavailable(GUILD));
    cache.insert_guild(GUILD, BOT_ROLE, true, Privacy::Locked);
    assert!(!cache.is_guild_unavailable(GUILD));
    let g = cache.guild(GUILD).unwrap();
    assert_eq!(g.bot_role_id, BOT_ROLE);
    assert!(g.permanence);
    assert_eq!(g.privacy, Privacy::Locked);
    assert!(g.category_channel_ids.is_empty());
    assert!(cache.guild(GUILD + 1).is_none());
}

#[test]
fn guild_insert_is_stale_when_cached() {
    let mut cache = Cache::new();
    cache.insert_guild(GUILD, BOT_ROLE, true, Privacy::Locked);
    cache.insert_guild(GUILD, 9, false, Privacy::Unlocked);
    let g = cache.guild(GUILD).unwrap();
    assert_eq!(g.bot_role_id, BOT_ROLE);
    assert!(g.permanence);
}

#[test]
fn category_registers_under_guild_and_join_index() {
    let cache = sample_cache();
    let g = cache.guild(GUILD).unwrap();
    assert_eq!(g.category_channel_ids, vec![CAT]);
    let cat = cache.category_channel(CAT).unwrap();
    assert_eq!(cat.guild_id, GUILD);
    assert_eq!(cat.join_channel_id, Some(JOIN));
    assert_eq!(cat.voice_channel_ids, vec![VOICE]);
    let by_join = cache.category_by_join(JOIN).unwrap();
    assert_eq!(by_join.id, CAT);
}

#[test]
fn category_without_guild_is_dropped() {
    let mut cache = Cache::new();
    cache.insert_category_channel(GUILD, CAT, None, Vec::new());
    assert!(cache.category_channel(CAT).is_none());
}

#[test]
fn voice_channel_tracks_presence_and_ownership() {
    let cache = sample_cache();
    let vc = cache.voice_channel(VOICE).unwrap();
    assert_eq!(vc.guild_id, GUILD);
    assert_eq!(vc.parent_id, CAT);
    assert_eq!(vc.owner_id, Some(OWNER));
    assert_eq!(vc.panel_message_id, Some(900));
    assert!(vc.connected_user_ids.contains(&OWNER));
    assert!(vc.connected_user_ids.contains(&OTHER));
    assert_eq!(cache.voice_state(GUILD, OWNER), Some(VOICE));
    assert_eq!(cache.voice_state(GUILD, OTHER), Some(VOICE));
    assert_eq!(cache.voice_channel_owner(GUILD, OWNER), Some(VOICE));
    assert_eq!(cache.voice_channel_owner(GUILD, OTHER), None);
}

#[test]
fn trigger_channel_is_never_cached_as_voice() {
    let mut cache = sample_cache();
    cache.insert_voice_channel(Vec::new(), GUILD, JOIN, None, None, CAT, Vec::new());
    assert!(cache.voice_channel(JOIN).is_none());
}

#[test]
fn voice_channel_without_parent_is_dropped() {
    let mut cache = sample_cache();
    cache.insert_voice_channel(Vec::new(), GUILD, 555, None, None, 9999, Vec::new());
    assert!(cache.voice_channel(555).is_none());
}

#[test]
fn remove_voice_channel_cascades_indices() {
    let mut cache = sample_cache();
    cache.remove_voice_channel(VOICE);
    assert!(cache.voice_channel(VOICE).is_none());
    assert_eq!(cache.voice_state(GUILD, OWNER), None);
    assert_eq!(cache.voice_state(GUILD, OTHER), None);
    assert_eq!(cache.voice_channel_owner(GUILD, OWNER), None);
    let cat = cache.category_channel(CAT).unwrap();
    assert!(cat.voice_channel_ids.is_empty());
}

#[test]
fn remove_category_channel_cascades_children() {
    let mut cache = sample_cache();
    cache.remove_category_channel(CAT);
    assert!(cache.category_channel(CAT).is_none());
    assert!(cache.voice_channel(VOICE).is_none());
    assert_eq!(cache.voice_state(GUILD, OWNER), None);
    assert_eq!(cache.voice_channel_owner(GUILD, OWNER), None);
    assert!(cache.category_by_join(JOIN).is_none());
    let g = cache.guild(GUILD).unwrap();
    assert!(g.category_channel_ids.is_empty());
}

#[test]
fn remove_guild_cascades_everything() {
    let mut cache = sample_cache();
    cache.remove_guild(GUILD);
    assert!(cache.guild(GUILD).is_none());
    assert!(cache.category_channel(CAT).is_none());
    assert!(cache.voice_channel(VOICE).is_none());
    assert_eq!(cache.voice_state(GUILD, OWNER), None);
    assert_eq!(cache.voice_channel_owner(GUILD, OWNER), None);
}

#[test]
fn update_owner_retargets_index() {
    let mut cache = sample_cache();
    cache.insert_voice_channel(Vec::new(), GUILD, 301, None, None, CAT, Vec::new());
    // OWNER owns VOICE; handing 301 to OWNER must clear VOICE's owner.
    cache.update_voice_channel_owner(301, Some(OWNER));
    assert_eq!(cache.voice_channel_owner(GUILD, OWNER), Some(301));
    assert_eq!(cache.voice_channel(VOICE).unwrap().owner_id, None);
    assert_eq!(cache.voice_channel(301).unwrap().owner_id, Some(OWNER));
    // Clearing 301's owner leaves nobody owning anything.
    cache.update_voice_channel_owner(301, None);
    assert_eq!(cache.voice_channel_owner(GUILD, OWNER), None);
    assert_eq!(cache.voice_channel(301).unwrap().owner_id, None);
}

#[test]
fn insert_voice_state_moves_membership() {
    let mut cache = sample_cache();
    cache.insert_voice_channel(Vec::new(), GUILD, 301, None, None, CAT, Vec::new());
    cache.insert_voice_state(GUILD, 301, OTHER);
    assert_eq!(cache.voice_state(GUILD, OTHER), Some(301));
    assert!(!cache.voice_channel(VOICE).unwrap().connected_user_ids.contains(&OTHER));
    assert!(cache.voice_channel(301).unwrap().connected_user_ids.contains(&OTHER));
    // Moving into an untracked channel just clears the presence.
    cache.insert_voice_state(GUILD, 777, OTHER);
    assert_eq!(cache.voice_state(GUILD, OTHER), None);
    assert!(!cache.voice_channel(301).unwrap().connected_user_ids.contains(&OTHER));
}

#[test]
fn remove_voice_state_clears_membership() {
    let mut cache = sample_cache();
    cache.remove_voice_state(GUILD, OTHER);
    assert_eq!(cache.voice_state(GUILD, OTHER), None);
    assert!(!cache.voice_channel(VOICE).unwrap().connected_user_ids.contains(&OTHER));
    assert_eq!(cache.voice_state(GUILD, OWNER), Some(VOICE));
}

#[test]
fn field_updates_hit_only_their_field() {
    let mut cache = sample_cache();
    cache.update_permanence(GUILD, true);
    assert!(cache.guild(GUILD).unwrap().permanence);
    cache.update_privacy(GUILD, Privacy::Invisible);
    assert_eq!(cache.guild(GUILD).unwrap().privacy, Privacy::Invisible);
    cache.update_panel_message(VOICE, None);
    assert_eq!(cache.voice_channel(VOICE).unwrap().panel_message_id, None);
    let entry = Overwrite { id: 5, kind: OverwriteKind::Member, allow: 1, deny: 0 };
    cache.update_voice_overwrites(VOICE, vec![entry]);
    assert_eq!(cache.voice_channel(VOICE).unwrap().permission_overwrites, vec![entry]);
    cache.update_category_overwrites(CAT, vec![entry]);
    assert_eq!(cache.category_channel(CAT).unwrap().permission_overwrites, vec![entry]);
}

#[test]
fn update_join_channel_keeps_trigger_rules() {
    let mut cache = sample_cache();
    // A cached voice channel cannot become a trigger.
    cache.update_join_channel(CAT, Some(VOICE));
    assert_eq!(cache.category_channel(CAT).unwrap().join_channel_id, Some(JOIN));
    // A fresh id can.
    cache.update_join_channel(CAT, Some(777));
    assert_eq!(cache.category_channel(CAT).unwrap().join_channel_id, Some(777));
    assert!(cache.category_by_join(JOIN).is_none());
    assert_eq!(cache.category_by_join(777).unwrap().id, CAT);
    // Clearing works too.
    cache.update_join_channel(CAT, None);
    assert_eq!(cache.category_channel(CAT).unwrap().join_channel_id, None);
    assert!(cache.category_by_join(777).is_none());
}

#[test]
fn indices_with_extreme_ids() {
    // Presence and ownership are indexed per guild and user; ids at the
    // edges of the id space must not collide across guilds or users.
    let g1 = u64::MAX;
    let g2 = 1;
    let u1 = u64::MAX;
    let u2 = 1;
    let mut cache = Cache::new();
    cache.insert_guild(g1, BOT_ROLE, false, Privacy::Unlocked);
    cache.insert_guild(g2, BOT_ROLE, false, Privacy::Unlocked);
    cache.insert_category_channel(g1, 10, None, Vec::new());
    cache.insert_category_channel(g2, 20, None, Vec::new());
    cache.insert_voice_channel(vec![u1], g1, 11, Some(u1), None, 10, Vec::new());
    cache.insert_voice_channel(vec![u2], g2, 21, Some(u2), None, 20, Vec::new());
    assert_eq!(cache.voice_state(g1, u1), Some(11));
    assert_eq!(cache.voice_state(g2, u2), Some(21));
    assert_eq!(cache.voice_state(g1, u2), None);
    assert_eq!(cache.voice_state(g2, u1), None);
    assert_eq!(cache.voice_channel_owner(g1, u1), Some(11));
    assert_eq!(cache.voice_channel_owner(g2, u1), None);
    cache.remove_voice_state(g1, u1);
    assert_eq!(cache.voice_state(g1, u1), None);
    assert_eq!(cache.voice_state(g2, u2), Some(21));
}

#[test]
fn presence_is_per_guild() {
    // One user can be in voice in two guilds at once.
    let mut cache = sample_cache();
    cache.insert_guild(101, BOT_ROLE, false, Privacy::Unlocked);
    cache.insert_category_channel(101, 210, None, Vec::new());
    cache.insert_voice_channel(Vec::new(), 101, 310, None, None, 210, Vec::new());
    cache.insert_voice_state(101, 310, OTHER);
    assert_eq!(cache.voice_state(GUILD, OTHER), Some(VOICE));
    assert_eq!(cache.voice_state(101, OTHER), Some(310));
}

#[test]
fn voice_channel_with_foreign_parent_is_dropped() {
    // A voice channel claiming one guild under a category of another is a
    // stale or malformed event: nothing is cached.
    let mut cache = sample_cache();
    cache.insert_guild(101, BOT_ROLE, false, Privacy::Unlocked);
    cache.insert_voice_channel(Vec::new(), 101, 555, None, None, CAT, Vec::new());
    assert!(cache.voice_channel(555).is_none());
}
