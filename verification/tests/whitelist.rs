use squadcfg::lint::lint_groups;
use squadcfg::model::{Group, Player, Whitelist};
use squadcfg::parse::parse_whitelist;
use squadcfg::perms::GroupPermission;

#[test]
fn it_encodes_a_group_permission() {
    assert_eq!(GroupPermission::TeamChange.to_whitelist(), "teamchange");
}

#[test]
fn it_encodes_a_group() {
    let group = Group::new(
        "Moderator",
        vec![
            GroupPermission::ChangeMap,
            GroupPermission::Chat,
            GroupPermission::Kick,
            GroupPermission::Ban,
        ],
    );

    assert_eq!(
        group.to_whitelist(),
        "Group=Moderator:changemap,chat,kick,ban"
    );
}

#[test]
fn it_encodes_a_player() {
    let group = Group::new(
        "Moderator",
        vec![
            GroupPermission::ChangeMap,
            GroupPermission::Chat,
            GroupPermission::Kick,
            GroupPermission::Ban,
        ],
    );

    let player = Player::new(76561115695178, &group.name, "Player 1");

    assert_eq!(
        player.to_whitelist(),
        "Admin=76561115695178:Moderator // Player 1"
    );
}

#[test]
fn it_formats_a_whitelist() {
    let super_admin = Group::new(
        "SuperAdmin",
        vec![
            GroupPermission::ChangeMap,
            GroupPermission::Cheat,
            GroupPermission::Private,
            GroupPermission::Balance,
            GroupPermission::Chat,
            GroupPermission::Kick,
            GroupPermission::Ban,
            GroupPermission::Config,
            GroupPermission::Cameraman,
            GroupPermission::Debug,
            GroupPermission::Pause,
        ],
    );

    let admin = Group::new(
        "Admin",
        vec![
            GroupPermission::ChangeMap,
            GroupPermission::Balance,
            GroupPermission::Chat,
            GroupPermission::Kick,
            GroupPermission::Ban,
            GroupPermission::Cameraman,
            GroupPermission::Pause,
        ],
    );

    let moderator = Group::new(
        "Moderator",
        vec![
            GroupPermission::ChangeMap,
            GroupPermission::Chat,
            GroupPermission::Kick,
            GroupPermission::Ban,
        ],
    );

    let whitelist = Group::new("Whitelist", vec![GroupPermission::Reserve]);

    let whitelist = Whitelist::new(
        vec![super_admin, admin, moderator, whitelist],
        vec![
            Player::new(76561115695178, "Moderator", "Player 5"),
            Player::new(8915618948911, "Moderator", "Player 4"),
            Player::new(7894591951519, "Admin", "Player 3"),
            Player::new(7895365435431, "Admin", "Player 8792"),
            Player::new(7984591565611, "SuperAdmin", "Player 2"),
            Player::new(7917236241624, "SuperAdmin", "Player 1"),
            Player::new(7984591565611, "Whitelist", "Player 123"),
            Player::new(7984591565523, "Whitelist", "Player 156"),
        ],
    );

    assert_eq!(whitelist.to_string(), "Group=SuperAdmin:changemap,cheat,private,balance,chat,kick,ban,config,cameraman,debug,pause
Group=Admin:changemap,balance,chat,kick,ban,cameraman,pause
Group=Moderator:changemap,chat,kick,ban
Group=Whitelist:reserve

// Moderator
Admin=76561115695178:Moderator // Player 5
Admin=8915618948911:Moderator // Player 4

// Admin
Admin=7894591951519:Admin // Player 3
Admin=7895365435431:Admin // Player 8792

// SuperAdmin
Admin=7984591565611:SuperAdmin // Player 2
Admin=7917236241624:SuperAdmin // Player 1

// Whitelist
Admin=7984591565611:Whitelist // Player 123
Admin=7984591565523:Whitelist // Player 156");
}

#[test]
fn it_parses_a_whitelist() {
    let whitelist_text = "Group=SuperAdmin:changemap,cheat,private,balance,chat,kick,ban,config,cameraman,debug,pause
Group=Admin:changemap,balance,chat,kick,ban,cameraman,pause
Group=Moderator:changemap,chat,kick,ban
Group=Whitelist:reserve

// Moderator
Admin=76561115695178:Moderator // Player 5
Admin=8915618948911:Moderator // Player 4

// Admin
Admin=7894591951519:Admin // Player 3
Admin=7895365435431:Admin // Player 8792

// SuperAdmin
Admin=7984591565611:SuperAdmin // Player 2
Admin=7917236241624:SuperAdmin // Player 1

// Whitelist
Admin=7984591565611:Whitelist // Player 123
Admin=7984591565523:Whitelist // Player 156";

    let whitelist = parse_whitelist(whitelist_text).unwrap();

    assert_eq!(whitelist.to_string(), whitelist_text);
}

#[test]
fn every_canonical_token_survives_a_round_trip() {
    let tokens = [
        "startbote",
        "changemap",
        "pause",
        "cheat",
        "private",
        "balance",
        "chat",
        "kick",
        "ban",
        "config",
        "cameraman",
        "immunity",
        "manageserver",
        "featuretest",
        "reserve",
        "demos",
        "debug",
        "teamchange",
        "forceteamchange",
        "canseedadminchat",
    ];
    for token in tokens {
        assert_eq!(GroupPermission::from_string(token).to_whitelist(), token);
    }
}

#[test]
fn unknown_tokens_map_to_unknown_and_render_empty() {
    assert_eq!(
        GroupPermission::from_string("not-a-real-token"),
        GroupPermission::Unknown
    );
    assert_eq!(GroupPermission::Unknown.to_whitelist(), "");
}

#[test]
fn a_non_numeric_player_id_coerces_to_zero() {
    let text = "Group=Moderator:chat\n\n// Moderator\nAdmin=abc:Moderator // Player 1";
    let whitelist = parse_whitelist(text).unwrap();
    assert_eq!(whitelist.players.len(), 1);
    assert_eq!(whitelist.players[0].steam_id, 0);
}

#[test]
fn an_out_of_range_player_id_coerces_to_zero() {
    let text = "Admin=99999999999999999999:Moderator // big";
    let whitelist = parse_whitelist(text).unwrap();
    assert_eq!(whitelist.players[0].steam_id, 0);
}

#[test]
fn lint_accepts_players_whose_groups_are_declared() {
    let whitelist = Whitelist::new(
        vec![
            Group::new("SuperAdmin", vec![GroupPermission::Cheat]),
            Group::new("Admin", vec![GroupPermission::Kick]),
            Group::new("Moderator", vec![GroupPermission::Chat]),
            Group::new("Whitelist", vec![GroupPermission::Reserve]),
        ],
        vec![
            Player::new(1, "SuperAdmin", "p1"),
            Player::new(2, "SuperAdmin", "p2"),
            Player::new(3, "Admin", "p3"),
            Player::new(4, "Admin", "p4"),
            Player::new(5, "Moderator", "p5"),
            Player::new(6, "Moderator", "p6"),
            Player::new(7, "Whitelist", "p7"),
            Player::new(8, "Whitelist", "p8"),
        ],
    );
    let source = whitelist.to_string();
    assert!(lint_groups(&whitelist, "wl.txt", &source).is_ok());
}

#[test]
fn lint_reports_the_player_with_an_undeclared_group() {
    let whitelist = Whitelist::new(
        vec![
            Group::new("SuperAdmin", vec![GroupPermission::Cheat]),
            Group::new("Admin", vec![GroupPermission::Kick]),
            Group::new("Moderator", vec![GroupPermission::Chat]),
            Group::new("Whitelist", vec![GroupPermission::Reserve]),
        ],
        vec![
            Player::new(1, "SuperAdmin", "p1"),
            Player::new(2, "Admin", "p2"),
            Player::new(76561115695178, "Administrator", "p3"),
            Player::new(4, "Whitelist", "p4"),
        ],
    );
    let source = whitelist.to_string();
    let err = lint_groups(&whitelist, "wl.txt", &source).unwrap_err();
    assert!(err.message.contains("76561115695178"));
    assert!(err.message.contains("Administrator"));
    assert_eq!(
        err.message,
        "player `76561115695178` has an invalid group name `Administrator`"
    );
    assert_eq!(err.path, "wl.txt");
}

#[test]
fn lint_matches_group_names_case_insensitively() {
    let whitelist = Whitelist::new(
        vec![Group::new("ADMIN", vec![GroupPermission::Kick])],
        vec![Player::new(1, "admin", "p1")],
    );
    assert!(lint_groups(&whitelist, "wl.txt", "").is_ok());
}

#[test]
fn the_concrete_fixture_round_trips_byte_for_byte() {
    let text = "Group=Moderator:changemap,chat,kick,ban\n\n// Moderator\nAdmin=76561115695178:Moderator // Player 1";
    let whitelist = parse_whitelist(text).unwrap();

    assert_eq!(whitelist.groups.len(), 1);
    let group = &whitelist.groups[0];
    assert_eq!(group.name, "Moderator");
    assert_eq!(
        group.permissions,
        vec![
            GroupPermission::ChangeMap,
            GroupPermission::Chat,
            GroupPermission::Kick,
            GroupPermission::Ban,
        ]
    );

    assert_eq!(whitelist.players.len(), 1);
    let player = &whitelist.players[0];
    assert_eq!(player.steam_id, 76561115695178);
    assert_eq!(player.group, "Moderator");
    assert_eq!(player.comment, "Player 1");

    assert_eq!(whitelist.to_string(), text);
}

#[test]
fn rendering_a_parsed_rendering_is_idempotent() {
    let doc = Whitelist::new(
        vec![
            Group::new("Admin", vec![GroupPermission::Kick, GroupPermission::Ban]),
            Group::new("Guest", vec![GroupPermission::Reserve]),
        ],
        vec![
            Player::new(11, "Guest", "a"),
            Player::new(12, "Admin", "b"),
            Player::new(13, "Guest", "c"),
        ],
    );
    let once = doc.to_string();
    let reparsed = parse_whitelist(&once).unwrap();
    assert_eq!(reparsed.to_string(), once);
}

#[test]
fn a_malformed_line_fails_the_whole_parse() {
    let err = parse_whitelist("garbage").unwrap_err();
    assert_eq!(err.line, 1);
    assert_eq!(err.offset, 0);

    let err = parse_whitelist("Group=A:chat\nxyz").unwrap_err();
    assert_eq!(err.line, 2);
    assert_eq!(err.offset, 13);

    let err = parse_whitelist("Group=NoColon").unwrap_err();
    assert_eq!(err.line, 1);

    let err = parse_whitelist("Admin=1:NoComment").unwrap_err();
    assert_eq!(err.line, 1);
}

#[test]
fn spans_cover_each_declaration_line() {
    let text = "Group=Moderator:chat\n\n// Moderator\nAdmin=5:Moderator // x";
    let whitelist = parse_whitelist(text).unwrap();
    assert_eq!(whitelist.groups[0].span.start, 0);
    assert_eq!(whitelist.groups[0].span.end, 20);
    assert_eq!(whitelist.players[0].span.start, 35);
    assert_eq!(whitelist.players[0].span.end, text.len());
}

#[test]
fn a_lint_error_locates_the_offending_line() {
    let text = "Group=Moderator:chat\n\n// Moderator\nAdmin=5:Nowhere // x";
    let whitelist = parse_whitelist(text).unwrap();
    let err = lint_groups(&whitelist, "cfg/admins.txt", text).unwrap_err();
    assert_eq!(err.line, 4);
    assert_eq!(err.col, 1);
    assert_eq!(err.span.start, 35);
    assert_eq!(
        err.to_message(),
        "cfg/admins.txt:4:1: player `5` has an invalid group name `Nowhere`"
    );
}

#[test]
fn unknown_permission_tokens_parse_and_render_lossily() {
    let whitelist = parse_whitelist("Group=X:bogus,chat").unwrap();
    assert_eq!(
        whitelist.groups[0].permissions,
        vec![GroupPermission::Unknown, GroupPermission::Chat]
    );
    assert_eq!(whitelist.to_string(), "Group=X:,chat\n\n");
}

#[test]
fn blank_and_comment_lines_produce_no_entities() {
    let whitelist = parse_whitelist("\n// a banner\n\nGroup=A:chat\n").unwrap();
    assert_eq!(whitelist.groups.len(), 1);
    assert_eq!(whitelist.players.len(), 0);
}
