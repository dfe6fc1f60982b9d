//! The permission overwrite calculator: initial lists, privacy switches,
//! locking, and the grant and revoke decisions.

use voice_rooms::perms::{
    apply_privacy, category_creation_overwrites, category_privacy_entry, current_privacy,
    grant_member_decision, grant_role_decision, initial_overwrites, is_locked,
    join_channel_overwrites, lock_overwrites, member_overwrite_ids, remove_member_decision,
    deny_member_decision, may_configure_guild, panel_permissions_ok, revoke_role_decision,
    unlock_overwrites,
    GrantOutcome, Overwrite, OverwriteKind, Privacy, RevokeOutcome, ADMINISTRATOR, CONNECT,
    EMBED_LINKS, MANAGE_CHANNELS, MANAGE_GUILD, MANAGE_ROLES, MOVE_MEMBERS, SEND_MESSAGES,
    VIEW_CHANNEL,
};

const EVERYONE: u64 = 100;
const BOT_ROLE: u64 = 7;
const BOT_USER: u64 = 8;
const OWNER: u64 = 400;

fn role(id: u64, allow: u64, deny: u64) -> Overwrite {
    Overwrite { id, kind: OverwriteKind::Role, allow, deny }
}

fn member(id: u64, allow: u64, deny: u64) -> Overwrite {
    Overwrite { id, kind: OverwriteKind::Member, allow, deny }
}

#[test]
fn initial_overwrites_from_template() {
    // The category template grants the bot's role connect and view and
    // gives everyone nothing; an empty leftover entry is pruned.
    let template = vec![
        role(BOT_ROLE, CONNECT | VIEW_CHANNEL, 0),
        role(EVERYONE, 0, 0),
        member(77, 0, 0),
        member(78, 2048, 0),
    ];
    let r = initial_overwrites(&template, Privacy::Unlocked, OWNER, BOT_ROLE, EVERYONE);
    assert_eq!(
        r,
        vec![
            member(78, 2048, 0),
            role(BOT_ROLE, CONNECT | VIEW_CHANNEL, 0),
            role(EVERYONE, 0, 0),
            member(OWNER, 0, 0),
        ]
    );
}

#[test]
fn initial_overwrites_apply_privacy_mode() {
    let template = vec![role(EVERYONE, 0, 2048)];
    let locked = initial_overwrites(&template, Privacy::Locked, OWNER, BOT_ROLE, EVERYONE);
    assert_eq!(
        locked,
        vec![
            role(BOT_ROLE, CONNECT | VIEW_CHANNEL, 0),
            role(EVERYONE, 0, 2048 | CONNECT),
            member(OWNER, CONNECT, 0),
        ]
    );
    let invisible = initial_overwrites(&template, Privacy::Invisible, OWNER, BOT_ROLE, EVERYONE);
    assert_eq!(
        invisible,
        vec![
            role(BOT_ROLE, CONNECT | VIEW_CHANNEL, 0),
            role(EVERYONE, 0, 2048 | VIEW_CHANNEL),
            member(OWNER, VIEW_CHANNEL, 0),
        ]
    );
}

#[test]
fn privacy_switch_is_exclusive() {
    // Start from a channel locked with extra bits around.
    let overwrites = vec![role(EVERYONE, 4, CONNECT), member(55, CONNECT, 0)];
    let locked = apply_privacy(&overwrites, Privacy::Locked, Some(OWNER), EVERYONE);
    let everyone = locked.iter().find(|o| o.id == EVERYONE).unwrap();
    assert_ne!(everyone.deny & CONNECT, 0);
    assert_eq!(everyone.deny & VIEW_CHANNEL, 0);
    assert_eq!(current_privacy(&locked, EVERYONE), Privacy::Locked);

    let invisible = apply_privacy(&locked, Privacy::Invisible, Some(OWNER), EVERYONE);
    let everyone = invisible.iter().find(|o| o.id == EVERYONE).unwrap();
    assert_eq!(everyone.deny & CONNECT, 0);
    assert_ne!(everyone.deny & VIEW_CHANNEL, 0);
    assert_eq!(current_privacy(&invisible, EVERYONE), Privacy::Invisible);

    let unlocked = apply_privacy(&invisible, Privacy::Unlocked, Some(OWNER), EVERYONE);
    let everyone = unlocked.iter().find(|o| o.id == EVERYONE).unwrap();
    assert_eq!(everyone.deny & (CONNECT | VIEW_CHANNEL), 0);
    assert_eq!(current_privacy(&unlocked, EVERYONE), Privacy::Unlocked);
}

#[test]
fn privacy_switch_mirrors_owner() {
    let overwrites = vec![role(EVERYONE, 0, 0)];
    let locked = apply_privacy(&overwrites, Privacy::Locked, Some(OWNER), EVERYONE);
    let owner = locked.iter().find(|o| o.id == OWNER).unwrap();
    assert_ne!(owner.allow & CONNECT, 0);
    // Without an owner, no owner slot appears.
    let locked = apply_privacy(&overwrites, Privacy::Locked, None, EVERYONE);
    assert!(locked.iter().all(|o| o.kind != OverwriteKind::Member));
}

#[test]
fn lock_and_unlock() {
    let overwrites = vec![role(EVERYONE, CONNECT, 0), member(BOT_USER, 0, 0)];
    assert!(!is_locked(&overwrites, EVERYONE));
    let locked = lock_overwrites(&overwrites, Some(OWNER), BOT_USER, EVERYONE);
    assert!(is_locked(&locked, EVERYONE));
    let everyone = locked.iter().find(|o| o.id == EVERYONE).unwrap();
    assert_eq!(everyone.allow & CONNECT, 0);
    let bot = locked.iter().find(|o| o.id == BOT_USER).unwrap();
    assert_ne!(bot.allow & CONNECT, 0);
    let owner = locked.iter().find(|o| o.id == OWNER).unwrap();
    assert_ne!(owner.allow & CONNECT, 0);

    let unlocked = unlock_overwrites(&locked, Some(OWNER), BOT_USER, EVERYONE);
    assert!(!is_locked(&unlocked, EVERYONE));
}

#[test]
fn grant_member_protects_bot_and_owner() {
    let overwrites = vec![];
    assert_eq!(
        grant_member_decision(&overwrites, BOT_USER, BOT_USER, Some(OWNER)),
        GrantOutcome::Rejected
    );
    assert_eq!(
        grant_member_decision(&overwrites, OWNER, BOT_USER, Some(OWNER)),
        GrantOutcome::Rejected
    );
}

#[test]
fn grant_member_merges_bits() {
    let overwrites = vec![member(55, 0, 2048)];
    let r = grant_member_decision(&overwrites, 55, BOT_USER, Some(OWNER));
    assert_eq!(
        r,
        GrantOutcome::Apply { allow: CONNECT | VIEW_CHANNEL, deny: 2048, previous_allow: 0 }
    );
    let r = grant_member_decision(&overwrites, 56, BOT_USER, Some(OWNER));
    assert_eq!(
        r,
        GrantOutcome::Apply { allow: CONNECT | VIEW_CHANNEL, deny: 0, previous_allow: 0 }
    );
}

#[test]
fn managed_role_grant_is_rejected() {
    let overwrites = vec![];
    assert_eq!(grant_role_decision(&overwrites, 66, true), GrantOutcome::Rejected);
    assert_eq!(
        grant_role_decision(&overwrites, 66, false),
        GrantOutcome::Apply { allow: CONNECT | VIEW_CHANNEL, deny: 0, previous_allow: 0 }
    );
}

#[test]
fn remove_member_outcomes() {
    let overwrites = vec![member(55, CONNECT, 0)];
    assert_eq!(
        remove_member_decision(&overwrites, OWNER, BOT_USER, Some(OWNER)),
        RevokeOutcome::Rejected
    );
    assert_eq!(
        remove_member_decision(&overwrites, 56, BOT_USER, Some(OWNER)),
        RevokeOutcome::NoEntry
    );
    assert_eq!(
        remove_member_decision(&overwrites, 55, BOT_USER, Some(OWNER)),
        RevokeOutcome::Delete
    );
}

#[test]
fn revoke_role_outcomes() {
    assert_eq!(revoke_role_decision(&vec![], 66, true), RevokeOutcome::Rejected);
    assert_eq!(revoke_role_decision(&vec![], 66, false), RevokeOutcome::NoEntry);
    // An entry holding only connect and view vanishes outright.
    let overwrites = vec![role(66, CONNECT | VIEW_CHANNEL, 0)];
    assert_eq!(revoke_role_decision(&overwrites, 66, false), RevokeOutcome::Delete);
    // One with other bits is shrunk.
    let overwrites = vec![role(66, CONNECT | 2048, 4)];
    assert_eq!(
        revoke_role_decision(&overwrites, 66, false),
        RevokeOutcome::Update { allow: 2048, deny: 4 }
    );
}

#[test]
fn category_privacy_entry_resets_bits() {
    let overwrites = vec![role(EVERYONE, CONNECT | 2048, VIEW_CHANNEL | 4)];
    let (allow, deny) = category_privacy_entry(&overwrites, Privacy::Locked, EVERYONE);
    assert_eq!(allow, 2048);
    assert_eq!(deny, 4 | CONNECT);
    let (allow, deny) = category_privacy_entry(&overwrites, Privacy::Unlocked, EVERYONE);
    assert_eq!(allow, 2048);
    assert_eq!(deny, 4);
}

#[test]
fn creation_overwrites() {
    let cat = category_creation_overwrites(EVERYONE, BOT_ROLE, Privacy::Invisible);
    assert_eq!(
        cat,
        vec![role(EVERYONE, 0, VIEW_CHANNEL), role(BOT_ROLE, VIEW_CHANNEL, 0)]
    );
    let cat = category_creation_overwrites(EVERYONE, BOT_ROLE, Privacy::Locked);
    assert_eq!(cat, vec![role(EVERYONE, 0, 0), role(BOT_ROLE, VIEW_CHANNEL, 0)]);
    let join = join_channel_overwrites(BOT_ROLE);
    assert_eq!(join, vec![role(BOT_ROLE, CONNECT | VIEW_CHANNEL, 0)]);
}

#[test]
fn member_overwrite_listing() {
    let overwrites = vec![role(EVERYONE, 0, 0), member(55, 1, 0), member(56, 0, 1)];
    assert_eq!(member_overwrite_ids(&overwrites), vec![55, 56]);
}

#[test]
fn permission_gates() {
    assert!(may_configure_guild(ADMINISTRATOR | MANAGE_GUILD));
    assert!(!may_configure_guild(ADMINISTRATOR));
    assert!(!may_configure_guild(MANAGE_GUILD));
    let all = CONNECT | EMBED_LINKS | MANAGE_CHANNELS | MANAGE_ROLES | MOVE_MEMBERS
        | SEND_MESSAGES | VIEW_CHANNEL;
    assert!(panel_permissions_ok(all));
    assert!(!panel_permissions_ok(all & !MOVE_MEMBERS));
}

#[test]
fn deny_member_outcomes() {
    let overwrites = vec![member(55, CONNECT | 2048, 4)];
    assert_eq!(
        deny_member_decision(&overwrites, BOT_USER, BOT_USER, Some(OWNER)),
        GrantOutcome::Rejected
    );
    assert_eq!(
        deny_member_decision(&overwrites, OWNER, BOT_USER, Some(OWNER)),
        GrantOutcome::Rejected
    );
    // Denying strips the bits from the allows and adds them to the denies.
    assert_eq!(
        deny_member_decision(&overwrites, 55, BOT_USER, Some(OWNER)),
        GrantOutcome::Apply {
            allow: 2048,
            deny: 4 | CONNECT | VIEW_CHANNEL,
            previous_allow: CONNECT | 2048,
        }
    );
    assert_eq!(
        deny_member_decision(&overwrites, 56, BOT_USER, Some(OWNER)),
        GrantOutcome::Apply { allow: 0, deny: CONNECT | VIEW_CHANNEL, previous_allow: 0 }
    );
}
