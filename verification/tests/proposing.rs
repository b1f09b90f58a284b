use pingbot::proposing::{proposals_listable, proposals_valid, vote_messages_valid, vote_valid};
use pingbot::database::Database;
use pingbot::proposing::{
    accept_proposal, cancel_proposal, see_vote_message_reply, check_proposal, check_proposals, escape_list_name,
    list_proposals, notice_text, propose, propose_reply, propose_request, propose_vote, push_message_link,
    BotMessage, FirstComponent, OldEmbed, ProposeOutcome,
};
use pingbot::structures::{ProposalStatus, PERMISSION};

fn store() -> Database {
    let mut db = Database::new();
    db.add_guild(1).unwrap();
    db
}

/// A proposal for `name` by user 9 in channel 100, announced by message 555.
fn proposed(db: &mut Database, name: &str, t: i64) -> u64 {
    assert!(db.can_read_permissions(1, 9, &vec![]));
    match propose(db, 1, 100, 9, &vec![], false, name, t) {
        ProposeOutcome::Started(id) => {
            db.complete_proposal(id, 555);
            id
        },
        other => panic!("not started: {:?}", other),
    }
}

fn vote_message(id: &str, label: &str) -> BotMessage {
    BotMessage {
        from_bot: true,
        action_rows: 1,
        first: FirstComponent::Button(id.to_string(), label.to_string()),
        message_id: 555,
        channel_id: 100,
    }
}

#[test]
fn proposed_names_are_escaped() {
    assert_eq!(escape_list_name("a#b\nc"), "a\\#bc");
    assert_eq!(escape_list_name("plain"), "plain");
}

#[test]
fn proposal_requests() {
    match propose_request(None) {
        Err(r) => {
            assert_eq!(r.text, "No list name was given.");
            assert!(r.ephemeral);
        },
        Ok(_) => panic!("accepted a missing name"),
    }
    let long = "x".repeat(81);
    match propose_request(Some(&long)) {
        Err(r) => assert_eq!(r.text, "List name is too long."),
        Ok(_) => panic!("accepted a long name"),
    }
    let eighty = "#".repeat(40);
    assert_eq!(propose_request(Some(&eighty)).ok().unwrap(), "\\#".repeat(40));
    let too_long = "#".repeat(41);
    assert!(propose_request(Some(&too_long)).is_err());
    assert_eq!(propose_request(Some("new#list")).ok().unwrap(), "new\\#list");
}

#[test]
fn a_proposal_opens_a_hidden_list_with_one_vote() {
    let mut db = store();
    assert!(db.can_read_permissions(1, 9, &vec![]));
    let out = propose(&mut db, 1, 100, 9, &vec![], false, "newlist", 1000);
    assert_eq!(out, ProposeOutcome::Started(1));
    assert_eq!(db.get_list_id_by_name("newlist", 1), Some(1));
    assert_eq!(db.get_list_permissions(1), (-1, PERMISSION::DENY, PERMISSION::DENY));
    assert!(!db.lists[0].visible);
    assert_eq!(db.get_members_in_list(1), vec![9]);
    assert_eq!(db.proposals.len(), 1);
    assert_eq!((db.proposals[0].timestamp, db.proposals[0].channel_id, db.proposals[0].message_id), (1000, 100, 0));
    db.complete_proposal(1, 555);
    assert_eq!(db.proposals[0].message_id, 555);
}

#[test]
fn proposal_replies() {
    let r = propose_reply(ProposeOutcome::Started(12), "newlist");
    assert_eq!(r.title, "A new list has been proposed: newlist");
    assert_eq!(r.color, (31, 127, 255));
    assert_eq!(r.vote_button.as_deref(), Some("12"));
    let r = propose_reply(ProposeOutcome::Denied, "x");
    assert_eq!(r.title, "You do not have permission to use /propose here.");
    assert_eq!(r.color, (255, 0, 0));
    assert!(r.vote_button.is_none());
    let r = propose_reply(ProposeOutcome::Exists, "x");
    assert_eq!(r.title, "This list already exists");
    assert_eq!(r.color, (0, 255, 0));
}

#[test]
fn a_guild_can_forbid_proposals() {
    let mut db = store();
    db.set_guild_canpropose(1, false);
    assert_eq!(propose(&mut db, 1, 100, 9, &vec![], false, "x", 1000), ProposeOutcome::Denied);
    assert!(db.lists.is_empty());
    // a role allowed to propose lifts it, as does being a moderator
    db.set_role_canpropose(1, 40, PERMISSION::ALLOW).unwrap();
    assert!(db.can_read_permissions(1, 9, &vec![40]));
    assert_eq!(propose(&mut db, 1, 100, 9, &vec![40], false, "x", 1000), ProposeOutcome::Started(1));
    assert_eq!(propose(&mut db, 1, 100, 9, &vec![], true, "y", 1000), ProposeOutcome::Started(2));
}

#[test]
fn votes_count_until_the_threshold() {
    let mut db = store();
    db.set_propose_threshold(1, 3);
    let id = proposed(&mut db, "newlist", 1000);
    let old = Some(OldEmbed {
        author: Some(("proposer".to_string(), "icon".to_string())),
        title: Some("A new list has been proposed: newlist".to_string()),
    });
    let r = propose_vote(&mut db, "1", 10, &old);
    assert_eq!(r.description, "Votes: 2");
    assert!(r.keep_button);
    assert_eq!(r.title.as_deref(), Some("A new list has been proposed: newlist"));
    assert_eq!(r.author, Some(("proposer".to_string(), "icon".to_string())));
    // voting twice does not count twice
    let r = propose_vote(&mut db, "1", 10, &None);
    assert_eq!(r.description, "Votes: 2");
    assert_eq!(r.title.as_deref(), Some("Someone removed this embed, shame on them!"));
    let r = propose_vote(&mut db, "1", 11, &old);
    assert_eq!(r.description, "Proposal accepted");
    assert!(!r.keep_button);
    assert!(r.title.is_none() && r.author.is_none());
    assert!(db.proposals.is_empty());
    assert!(db.lists[0].visible);
    assert_eq!(db.get_list_permissions(id), (-1, PERMISSION::NEUTRAL, PERMISSION::NEUTRAL));
    assert_eq!(check_proposal(&mut db, id), ProposalStatus::REMOVED);
}

#[test]
fn running_proposals_are_listed() {
    let mut db = store();
    let l = list_proposals(&mut db, 1, 5000);
    assert_eq!(l.title.as_deref(), Some("No proposals found"));
    assert!(l.fields.is_empty());
    proposed(&mut db, "newlist", 1000);
    let l = list_proposals(&mut db, 1, 1060);
    assert!(l.title.is_none());
    assert_eq!(
        l.fields,
        vec![(
            "newlist".to_string(),
            "Has 1 / 8 votes, 23 hours and 59 minutes remaining.\nhttps://discord.com/channels/1/100/555".to_string()
        )]
    );
    let l = list_proposals(&mut db, 1, 1000 + 86400 + 3600);
    assert_eq!(l.fields[0].1, "Has 1 / 8 votes, -1 hours and 0 minutes remaining.\nhttps://discord.com/channels/1/100/555");
}

#[test]
fn the_periodic_check() {
    let mut db = store();
    db.set_propose_threshold(1, 2);
    let a = proposed(&mut db, "old", 1000);
    let b = proposed(&mut db, "popular", 5000);
    let c = proposed(&mut db, "fresh", 50_000);
    propose_vote(&mut db, "2", 33, &None);
    assert_eq!(db.proposals.len(), 2);
    assert!(check_proposals(&mut db, 2000).is_empty());
    let notices = check_proposals(&mut db, 1000 + 86400);
    assert_eq!(notices, vec![(100, 555, false)]);
    assert_eq!(db.get_list_id_by_name("old", 1), None);
    assert!(!db.get_list_exists(a));
    assert!(db.get_list_exists(b));
    assert_eq!(check_proposal(&mut db, c), ProposalStatus::ACTIVE(c, 1, 50_000, 100, 555));
    assert_eq!(notice_text(true), "Proposal accepted");
    assert_eq!(notice_text(false), "Proposal timed out");
}

#[test]
fn moderators_cancel_or_accept_by_the_vote_message() {
    let mut db = store();
    proposed(&mut db, "one", 1000);
    proposed(&mut db, "two", 1000);
    let ms = vec![vote_message("1", "Vote")];
    match cancel_proposal(&mut db, false, &ms) {
        Err(r) => assert_eq!(r.text, "You do not have permission to use this command."),
        Ok(_) => panic!("a member cancelled"),
    }
    let (m, c, t) = cancel_proposal(&mut db, true, &ms).ok().unwrap().unwrap();
    assert_eq!((m, c, t.as_str()), (555, 100, "Voting cancelled"));
    assert!(!db.get_list_exists(1));
    let (_, _, t) = cancel_proposal(&mut db, true, &ms).ok().unwrap().unwrap();
    assert_eq!(t, "Proposal already removed");
    let ms2 = vec![vote_message("2", "Vote")];
    let (_, _, t) = accept_proposal(&mut db, true, &ms2).ok().unwrap().unwrap();
    assert_eq!(t, "Proposal acccepted");
    assert!(db.lists[0].visible);
    // accepting again still reports acceptance: the store drops no proposal
    // and opens the list once more
    let (_, _, t) = accept_proposal(&mut db, true, &ms2).ok().unwrap().unwrap();
    assert_eq!(t, "Proposal acccepted");
    let (_, _, t) = cancel_proposal(&mut db, true, &ms2).ok().unwrap().unwrap();
    assert_eq!(t, "Proposal already accepted");
    let other = vec![vote_message("2", "Join")];
    assert!(cancel_proposal(&mut db, true, &other).ok().unwrap().is_none());
    assert_eq!(see_vote_message_reply().text, "Check the original proposal message for results.");
}

#[test]
fn message_links() {
    let mut s = String::from("see ");
    push_message_link(&mut s, 1, 22, 333);
    assert_eq!(s, "see https://discord.com/channels/1/22/333");
}

#[test]
fn checks_before_the_proposal_commands() {
    let mut db = store();
    assert!(db.has_list_room());
    assert!(db.guild_known(1) && !db.guild_known(2));
    assert!(db.can_read_permissions(1, 9, &vec![]));
    propose(&mut db, 1, 100, 9, &vec![], false, "one", 1000);
    // the announcement is not recorded yet
    assert!(!proposals_valid(&db));
    assert!(!proposals_listable(&mut db, 1, 2000));
    assert!(!vote_valid(&db, "1", 5));
    db.complete_proposal(1, 555);
    assert!(proposals_valid(&db));
    assert!(proposals_listable(&mut db, 1, 2000));
    assert!(!proposals_listable(&mut db, 1, 999));
    assert!(proposals_listable(&mut db, 2, 999));
    assert!(vote_valid(&db, "1", 5));
    assert!(vote_valid(&db, "7", 5));
    assert!(!vote_valid(&db, "x", 5));
    assert!(!vote_valid(&db, "1", u64::MAX));
    let missing = BotMessage { from_bot: true, action_rows: 1, first: FirstComponent::Missing, message_id: 1, channel_id: 2 };
    assert!(!vote_messages_valid(&vec![missing]));
    assert!(vote_messages_valid(&vec![vote_message("1", "Vote")]));
    assert!(!vote_messages_valid(&vec![vote_message("18446744073709551615", "Vote")]));
    let other = BotMessage { from_bot: false, action_rows: 1, first: FirstComponent::Missing, message_id: 1, channel_id: 2 };
    assert!(vote_messages_valid(&vec![other]));
}

#[test]
fn at_most_ten_notices_per_check() {
    let mut db = store();
    for k in 0..12 {
        proposed(&mut db, &format!("p{}", k), 1000);
    }
    let notices = check_proposals(&mut db, 1000 + 86400);
    assert_eq!(notices.len(), 10);
    assert_eq!(db.proposals.len(), 2);
    let notices = check_proposals(&mut db, 1000 + 86400);
    assert_eq!(notices.len(), 2);
    assert!(db.proposals.is_empty());
    assert!(db.lists.is_empty());
}
