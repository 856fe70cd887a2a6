//! Lines of the servers that the logger has been on, and what they are.
use mc_logger::classify::{
    chat_from_capture, classify, clean_player_name, is_bridge_spam, is_plugin_speaker, read_countdown,
    restart_countdown_secs, strip_legacy_formatting, strip_section_sign, ChatPatterns,
    Classification, Classifier, CountdownError, Kind,
};
use mc_logger::deaths::{
    build_death_matchers, custom_death_templates, death_matcher_count, death_vocabulary, if_any,
    match_death, matchers_from, reload_custom_deaths, table_in, templates_in, ReloadError,
    TemplateEntry, TemplateGroup,
};

const VANILLA: &[&str] = &[
    "%1$s was squashed by a falling anvil",
    "%1$s was squashed by a falling anvil while fighting %2$s",
    "%1$s was shot by %2$s",
    "%1$s was shot by %2$s using %3$s",
    "%1$s was killed by [Intentional Game Design]",
    "%1$s was pricked to death",
    "%1$s walked into a cactus while trying to escape %2$s",
    "%1$s was squished too much",
    "%1$s was squashed by %2$s",
    "%1$s was roasted in dragon's breath",
    "%1$s was roasted in dragon's breath by %2$s",
    "%1$s drowned",
    "%1$s drowned while trying to escape %2$s",
    "%1$s died from dehydration",
    "%1$s died from dehydration while trying to escape %2$s",
    "%1$s was killed by even more magic",
    "%1$s blew up",
    "%1$s was blown up by %2$s",
    "%1$s was blown up by %2$s using %3$s",
    "%1$s hit the ground too hard",
    "%1$s hit the ground too hard while trying to escape %2$s",
    "%1$s was squashed by a falling block",
    "%1$s was squashed by a falling block while fighting %2$s",
    "%1$s was skewered by a falling stalactite",
    "%1$s was skewered by a falling stalactite while fighting %2$s",
    "%1$s was fireballed by %2$s",
    "%1$s was fireballed by %2$s using %3$s",
    "%1$s went off with a bang",
    "%1$s went off with a bang due to a firework fired from %3$s by %2$s",
    "%1$s went off with a bang while fighting %2$s",
    "%1$s experienced kinetic energy",
    "%1$s experienced kinetic energy while trying to escape %2$s",
    "%1$s froze to death",
    "%1$s was frozen to death by %2$s",
    "%1$s died",
    "%1$s died because of %2$s",
    "%1$s was killed",
    "%1$s was killed while fighting %2$s",
    "%1$s discovered the floor was lava",
    "%1$s walked into the danger zone due to %2$s",
    "%1$s was killed by %2$s using magic",
    "%1$s was killed by %2$s using %3$s",
    "%1$s went up in flames",
    "%1$s walked into fire while fighting %2$s",
    "%1$s suffocated in a wall",
    "%1$s suffocated in a wall while fighting %2$s",
    "%1$s tried to swim in lava",
    "%1$s tried to swim in lava to escape %2$s",
    "%1$s was struck by lightning",
    "%1$s was struck by lightning while fighting %2$s",
    "%1$s was smashed by %2$s",
    "%1$s was smashed by %2$s with %3$s",
    "%1$s was killed by magic",
    "%1$s was killed by magic while trying to escape %2$s",
    "%1$s was slain by %2$s",
    "%1$s was slain by %2$s using %3$s",
    "%1$s burned to death",
    "%1$s was burned to a crisp while fighting %2$s",
    "%1$s was burned to a crisp while fighting %2$s wielding %3$s",
    "%1$s fell out of the world",
    "%1$s didn't want to live in the same world as %2$s",
    "%1$s left the confines of this world",
    "%1$s left the confines of this world while fighting %2$s",
    "%1$s was obliterated by a sonically-charged shriek",
    "%1$s was obliterated by a sonically-charged shriek while trying to escape %2$s",
    "%1$s was obliterated by a sonically-charged shriek while trying to escape %2$s wielding %3$s",
    "%1$s was impaled on a stalagmite",
    "%1$s was impaled on a stalagmite while fighting %2$s",
    "%1$s starved to death",
    "%1$s starved to death while fighting %2$s",
    "%1$s was stung to death",
    "%1$s was stung to death by %2$s",
    "%1$s was stung to death by %2$s using %3$s",
    "%1$s was poked to death by a sweet berry bush",
    "%1$s was poked to death by a sweet berry bush while trying to escape %2$s",
    "%1$s was killed while trying to hurt %2$s",
    "%1$s was killed by %3$s while trying to hurt %2$s",
    "%1$s was pummeled by %2$s",
    "%1$s was pummeled by %2$s using %3$s",
    "%1$s was impaled by %2$s",
    "%1$s was impaled by %2$s with %3$s",
    "%1$s withered away",
    "%1$s withered away while fighting %2$s",
    "%1$s was shot by a skull from %2$s",
    "%1$s was shot by a skull from %2$s using %3$s",
    "%1$s fell from a high place",
    "%1$s fell off a ladder",
    "%1$s fell off some vines",
    "%1$s fell off some weeping vines",
    "%1$s fell off some twisting vines",
    "%1$s fell off scaffolding",
    "%1$s fell while climbing",
    "%1$s was doomed to fall",
    "%1$s was doomed to fall by %2$s",
    "%1$s was doomed to fall by %2$s using %3$s",
    "%1$s fell too far and was finished by %2$s",
    "%1$s fell too far and was finished by %2$s using %3$s",
];

const CUSTOM: &[&str] = &[
    "%1$s became epstein'd",
    "%1$s comitted sudoku",
    "%1$s killed themselves",
    "%1$s thought they could swim forever",
    "%1$s fell into the void",
    "%1$s was pushed off a high place by %2$s",
    "%1$s took 3 heads at once",
    "%1$s was burnt to a crisp",
    "%1$s thought lava was a hot tub",
    "%1$s was knocked by a bunch of Creaking's",
    "%1$s blew up! They were playing around with an end-crystal!",
    "%1$s was slain by %2$s somehow using %3$s",
    "%1$s was assassinated by %2$s.",
    "%1$s fell to death.",
    "%1$s suicide bombed with an end crystal",
    "%1$s died.",
    "%1$s was torn to shreds by %2$s using %3$s",
    "%1$s was utterly destroyed by %2$s using %3$s",
];

const KILLER_FIRST: &[&str] = &[
    "%1$s assassinated %2$s with %3$s",
    "%1$s terminated %2$s using %3$s",
];

fn table() -> Vec<String> {
    VANILLA.iter().map(|t| t.to_string()).collect()
}

fn groups() -> Vec<TemplateGroup> {
    let servers = CUSTOM.iter().map(|t| TemplateEntry::Text(t.to_string())).collect();
    let killer_first = KILLER_FIRST
        .iter()
        .map(|t| TemplateEntry::Slots {
            template: Some(t.to_string()),
            victim: Some(2),
            killer: Some(1),
        })
        .collect();
    vec![
        TemplateGroup { key: "_comment".to_string(), entries: None },
        TemplateGroup { key: "servers".to_string(), entries: Some(servers) },
        TemplateGroup { key: "2b2t".to_string(), entries: Some(killer_first) },
    ]
}

/// The text of a table of templates.
fn table_source(templates: &[&str]) -> String {
    let members: Vec<String> = templates
        .iter()
        .enumerate()
        .map(|(i, t)| format!("\"death.{i}\": \"{t}\""))
        .collect();
    format!("{{{}}}", members.join(", "))
}

/// The text of a template file with the groups of [`groups`].
fn custom_source() -> String {
    let servers: Vec<String> = CUSTOM.iter().map(|t| format!("\"{t}\"")).collect();
    let killer_first: Vec<String> = KILLER_FIRST
        .iter()
        .map(|t| format!("{{\"template\": \"{t}\", \"victim\": 2, \"killer\": 1}}"))
        .collect();
    format!(
        "{{\"_comment\": \"x\", \"servers\": [{}], \"2b2t\": [{}]}}",
        servers.join(", "),
        killer_first.join(", ")
    )
}

fn classifier() -> Classifier {
    Classifier {
        patterns: ChatPatterns::new().expect("the patterns compile"),
        deaths: reload_custom_deaths(&custom_source(), &table_source(VANILLA))
            .ok()
            .expect("there are templates"),
    }
}

fn sorted(line: &str, player: bool, whisper: bool, key: Option<&str>) -> Classification {
    classify(&classifier(), line, player, whisper, key)
}

fn secs(line: &str) -> Option<u64> {
    let patterns = ChatPatterns::new().expect("the patterns compile");
    let read = read_countdown(&patterns, line).expect("no line here is that long");
    assert_eq!(restart_countdown_secs(&patterns, line), read);
    read
}

#[test]
    fn builds_death_matchers() {
        assert!(death_matcher_count(&classifier().deaths) > 90, "expected the full death table");
    }

    #[test]
    fn recognises_server_specific_deaths() {
        // Real lines from Constantiam that were being filed as "server".
        for (line, victim) in [
            ("RapzyS became epstein'd", "RapzyS"),
            ("RapzyS comitted sudoku", "RapzyS"),
            ("RapzyS killed themselves", "RapzyS"),
            ("RapzyS thought they could swim forever", "RapzyS"),
            ("5g4i fell into the void", "5g4i"),
            ("0boz was pushed off a high place by RapzyS", "0boz"),
            ("postironyc took 3 heads at once", "postironyc"),
            ("postironyc was burnt to a crisp", "postironyc"),
            ("xwonowx was burnt to a crisp", "xwonowx"),
            ("ItzPenguinGG thought lava was a hot tub", "ItzPenguinGG"),
            // Apostrophe has to survive regex escaping.
            ("ItzPenguinGG was knocked by a bunch of Creaking's", "ItzPenguinGG"),
            (
                "NotBananaBread blew up! They were playing around with an end-crystal!",
                "NotBananaBread",
            ),
        ] {
            let result = sorted(line, false, false, None);
            assert_eq!(result.kind, Kind::Death, "should be a death: {line}");
            assert_eq!(result.subject.as_deref(), Some(victim), "wrong victim: {line}");
        }
    }

    #[test]
    fn captures_the_killer() {
        for (line, victim, killer) in [
            ("Notch was slain by Herobrine", "Notch", "Herobrine"),
            ("Notch was shot by Herobrine", "Notch", "Herobrine"),
            ("0boz was pushed off a high place by RapzyS", "0boz", "RapzyS"),
            // Vanilla's "slain by %2$s using %3$s" would credit "dwbb somehow"
            // here; the custom template has to win. Weapon names carry unicode
            // and brackets, which must not disturb the killer capture.
            (
                "NotBananaBread was slain by dwbb somehow using [𝙻𝚎𝚟𝙹𝚘𝚎´𝚜 𝙴𝚖𝚙𝚒𝚛𝚎 𝚂𝚠𝚘𝚛𝚍]",
                "NotBananaBread",
                "dwbb",
            ),
            // 2b2t victim-first + killer-first
            ("Steve was assassinated by Alex.", "Steve", "Alex"),
            ("Alex assassinated Steve with Netherite Sword", "Steve", "Alex"),
            ("Alex terminated Steve using Netherite Axe", "Steve", "Alex"),
            // 6b6t
            ("Steve was torn to shreds by Alex using Diamond Sword", "Steve", "Alex"),
        ] {
            let result = sorted(line, false, false, None);
            assert_eq!(result.kind, Kind::Death, "{line}");
            assert_eq!(result.subject.as_deref(), Some(victim), "{line}");
            assert_eq!(result.killer.as_deref(), Some(killer), "{line}");
        }
    }

    #[test]
    fn deaths_with_no_killer_have_none() {
        for line in ["Notch fell from a high place", "RapzyS comitted sudoku"] {
            let result = sorted(line, false, false, None);
            assert_eq!(result.kind, Kind::Death, "{line}");
            assert_eq!(result.killer, None, "nothing killed them: {line}");
        }
    }

    #[test]
    fn fighting_bystander_is_not_credited_with_the_kill() {
        // The anvil did the killing here; the named player was just nearby.
        let result = sorted("Notch was squashed by a falling anvil while fighting Herobrine", false, false, None);
        assert_eq!(result.kind, Kind::Death);
        assert_eq!(result.killer, None, "a bystander must not be credited");
    }

    #[test]
    fn server_motd_is_not_a_death() {
        // These sit next to the death lines in the same feed and must not match.
        for line in [
            "Welcome to Constantiam!",
            "Player discretion is advised.",
            "This server is intended for mature audience.",
        ] {
            assert_eq!(sorted(line, false, false, None).kind, Kind::Server, "{line}");
        }
    }

    #[test]
    fn twobtwot_and_sixbsixt_deaths() {
        for (line, victim) in [
            ("Steve fell to death.", "Steve"),
            ("Steve suicide bombed with an end crystal", "Steve"),
            ("Steve died.", "Steve"),
            ("Steve was utterly destroyed by Alex using Bow", "Steve"),
        ] {
            let result = sorted(line, false, false, None);
            assert_eq!(result.kind, Kind::Death, "{line}");
            assert_eq!(result.subject.as_deref(), Some(victim), "{line}");
        }
    }

    #[test]
    fn classifies_deaths_from_flat_text() {
        let result = sorted("Notch was slain by Herobrine", false, false, None);
        assert_eq!(result.kind, Kind::Death);
        assert_eq!(result.subject.as_deref(), Some("Notch"));
    }

    #[test]
    fn classifies_join_and_leave() {
        assert_eq!(sorted("Notch joined the game", false, false, None).kind, Kind::Join);
        assert_eq!(sorted("Notch left the game", false, false, None).kind, Kind::Leave);
        // 6b6t /connectionmsgs
        assert_eq!(sorted("Notch joined.", false, false, None).kind, Kind::Join);

        // UneasyVanilla capitalises the verb; the tab list is not the only
        // source of join/leave there, chat is.
        let joined = sorted("Sfxm Joined.", false, false, None);
        assert_eq!(joined.kind, Kind::Join);
        assert_eq!(joined.subject.as_deref(), Some("Sfxm"));
        let left = sorted("Sfxm Left.", false, false, None);
        assert_eq!(left.kind, Kind::Leave);
        assert_eq!(left.subject.as_deref(), Some("Sfxm"));
        // A player typing it is still chat, not a presence event.
        assert_eq!(sorted("Sfxm Joined.", true, false, None).kind, Kind::Chat);
        let quit = sorted("jobless quit", false, false, None);
        assert_eq!(quit.kind, Kind::Leave);
        assert_eq!(quit.subject.as_deref(), Some("jobless"));
        assert_eq!(sorted("Senki4444 quit.", false, false, None).kind, Kind::Leave);
    }

    #[test]
    fn leave_is_not_mistaken_for_a_death() {
        assert_eq!(sorted("Notch left the game", false, false, None).kind, Kind::Leave);
    }

    #[test]
    fn player_packets_are_always_chat() {
        // Somebody typing "x joined the game" must not register as a join.
        let result = sorted("Notch joined the game", true, false, None);
        assert_eq!(result.kind, Kind::Chat);
    }

    #[test]
    fn advancements_are_recognised() {
        let result = sorted("Notch has made the advancement [Eye Spy]", false, false, None);
        assert_eq!(result.kind, Kind::Advancement);
    }

    #[test]
    fn system_formatted_chat_is_chat_not_server() {
        // Constantiam sends player chat as a system message in this shape; it
        // was being recorded as "server" and losing the sender entirely.
        let result = sorted("<AIuminium> columbian cities are quite safe", false, false, None);
        assert_eq!(result.kind, Kind::Chat);
        assert_eq!(result.sender.as_deref(), Some("AIuminium"));
        assert_eq!(result.content.as_deref(), Some("columbian cities are quite safe"));
    }

    #[test]
    fn vanillaplus_rank_tags_are_chat() {
        let ranked = sorted(
            "[ʙᴏᴏsᴛᴇʀ] <w1shlol> @jidion come get keywalks",
            false,
            false,
            None,
        );
        assert_eq!(ranked.kind, Kind::Chat);
        assert_eq!(ranked.sender.as_deref(), Some("w1shlol"));
        assert_eq!(ranked.content.as_deref(), Some("@jidion come get keywalks"));

        let paradise = sorted(
            "[🌴ᴘᴀʀᴀᴅɪsᴇ] <ManuelG_MPG> 2 queue with 108/110 online",
            false,
            false,
            None,
        );
        assert_eq!(paradise.kind, Kind::Chat);
        assert_eq!(paradise.sender.as_deref(), Some("ManuelG_MPG"));

        let clan = sorted("[ᴇɢɪʀʟ] <StyAway> Selling tokens", false, false, None);
        assert_eq!(clan.kind, Kind::Chat);
        assert_eq!(clan.sender.as_deref(), Some("StyAway"));

        let phantom = sorted(
            "[ᴘʜᴀɴᴛᴏᴍ] <TheNightAgent> Selling kits 4ing per /trade",
            false,
            false,
            None,
        );
        assert_eq!(phantom.kind, Kind::Chat);
        assert_eq!(phantom.sender.as_deref(), Some("TheNightAgent"));

        let dotted = sorted("<.Hightierthreeee> w1shlol is a qd", false, false, None);
        assert_eq!(dotted.kind, Kind::Chat);
        assert_eq!(dotted.sender.as_deref(), Some(".Hightierthreeee"));

        assert_eq!(
            sorted(
                "[Vanilla+] The Crystal Zone will reset in 30s! This may cause a brief lag.",
                false,
                false,
                None,
            )
            .kind,
            Kind::Server
        );
    }

    #[test]
    fn hazey_ranked_angle_chat_is_chat() {
        let ranked = sorted("<[M] SawgerGG> » want to learn how to dupe?", false, false, None);
        assert_eq!(ranked.kind, Kind::Chat);
        assert_eq!(ranked.sender.as_deref(), Some("SawgerGG"));
        assert_eq!(ranked.sender_label.as_deref(), Some("<[M] SawgerGG>"));
        assert_eq!(
            ranked.content.as_deref(),
            Some("want to learn how to dupe?")
        );

        let whisper = sorted("[m1rka114] <[M] m1rka114> » hello", false, false, None);
        assert_eq!(whisper.kind, Kind::Chat);
        assert_eq!(whisper.sender.as_deref(), Some("m1rka114"));
        assert_eq!(whisper.sender_label.as_deref(), Some("[m1rka114] <[M] m1rka114>"));

        let outer = sorted("[_Banzz] <_Banzz> anything happening", false, false, None);
        assert_eq!(outer.kind, Kind::Chat);
        assert_eq!(outer.sender.as_deref(), Some("_Banzz"));
        assert_eq!(outer.sender_label.as_deref(), Some("[_Banzz] <_Banzz>"));
    }

    #[test]
    fn tagged_rank_chat_and_tablist() {
        let ranked = sorted(
            "[8] [MVP] DesBob [slime] » ty though",
            false,
            false,
            None,
        );
        assert_eq!(ranked.kind, Kind::Chat);
        assert_eq!(ranked.sender.as_deref(), Some("DesBob"));
        assert_eq!(ranked.sender_label.as_deref(), Some("[8] [MVP] DesBob [slime]"));

        let sixbsixt = sorted(
            "[Prime] TheGroupProject » Ranked Players Only!",
            false,
            false,
            None,
        );
        assert_eq!(sixbsixt.kind, Kind::Chat);
        assert_eq!(sixbsixt.sender.as_deref(), Some("TheGroupProject"));
        assert_eq!(sixbsixt.sender_label.as_deref(), Some("[Prime] TheGroupProject"));

        let plain = sorted("jointedx21 » bro i keep getting killed", false, false, None);
        assert_eq!(plain.kind, Kind::Chat);
        assert_eq!(plain.sender.as_deref(), Some("jointedx21"));

        let flake = sorted("❄ santiahre » gg", false, false, None);
        assert_eq!(flake.kind, Kind::Chat);
        assert_eq!(flake.sender.as_deref(), Some("santiahre"));
        assert_eq!(flake.content.as_deref(), Some("gg"));
        assert_eq!(flake.sender_label.as_deref(), Some("❄ santiahre"));

        let join = sorted("[+] chjn12", false, false, None);
        assert_eq!(join.kind, Kind::Join);
        assert_eq!(join.subject.as_deref(), Some("chjn12"));

        let leave = sorted("[✖] ka1gamer107", false, false, None);
        assert_eq!(leave.kind, Kind::Leave);
        assert_eq!(leave.subject.as_deref(), Some("ka1gamer107"));
    }

    #[test]
    fn minewind_rank_dot_chat_is_chat() {
        let ranked = sorted("Neos.Grave: dude n", false, false, None);
        assert_eq!(ranked.kind, Kind::Chat);
        assert_eq!(ranked.sender.as_deref(), Some("Grave"));
        assert_eq!(ranked.content.as_deref(), Some("dude n"));

        let welcome = sorted("Welcome hornet68!", false, false, None);
        assert_eq!(welcome.kind, Kind::Join);
        assert_eq!(welcome.subject.as_deref(), Some("hornet68"));

        assert_eq!(
            sorted("Price Check: PC: Wither 2 costs 3s", false, false, None).kind,
            Kind::Server
        );
        for line in [
            "Explainer: Magma Orb (Spell): Fires a slow homing shot that explodes on impact",
            "DebugMenu: Your luck is above average today",
        ] {
            let result = sorted(line, false, false, None);
            assert_eq!(result.kind, Kind::Server, "{line}");
            assert_eq!(result.sender, None, "{line}");
        }
    }

    #[test]
    fn prefixed_chat_survives_rank_decoration() {
        let result = sorted("Raekuuro ⛏ > nice", false, false, None);
        assert_eq!(result.kind, Kind::Chat);
        assert_eq!(result.sender.as_deref(), Some("Raekuuro"));
        assert_eq!(result.content.as_deref(), Some("nice"));
    }

    #[test]
    fn rempolon_rank_arrow_chat_is_chat() {
        for (line, sender, content, label) in [
            (
                "ᴘʟᴀʏᴇʀ+ Cloudcon ➤ man..",
                "Cloudcon",
                "man..",
                "ᴘʟᴀʏᴇʀ+ Cloudcon",
            ),
            (
                "ᴘʟᴀʏᴇʀ RoyalBluYT ➤ god i hate powdered snow",
                "RoyalBluYT",
                "god i hate powdered snow",
                "ᴘʟᴀʏᴇʀ RoyalBluYT",
            ),
            (
                "ULTRA GrimVoidX ➤ yoo chill mate",
                "GrimVoidX",
                "yoo chill mate",
                "ULTRA GrimVoidX",
            ),
            (
                "GODLIKE BingsChungus ➤ 5k",
                "BingsChungus",
                "5k",
                "GODLIKE BingsChungus",
            ),
            (
                "[mitropolzka] ᴘʟᴀʏᴇʀ mitropolzka ➤ @GrimVoidX language",
                "mitropolzka",
                "@GrimVoidX language",
                "[mitropolzka] ᴘʟᴀʏᴇʀ mitropolzka",
            ),
        ] {
            let result = sorted(line, false, false, None);
            assert_eq!(result.kind, Kind::Chat, "{line}");
            assert_eq!(result.sender.as_deref(), Some(sender), "{line}");
            assert_eq!(result.content.as_deref(), Some(content), "{line}");
            assert_eq!(result.sender_label.as_deref(), Some(label), "{line}");
        }

        assert_eq!(
            sorted("Get from store.rempolon.eu", false, false, None).kind,
            Kind::Server
        );
    }

    #[test]
    fn quoted_chat_beats_death_matching() {
        // Somebody typing a death message must stay chat.
        let result = sorted("<Notch> Herobrine was slain by Notch", false, false, None);
        assert_eq!(result.kind, Kind::Chat);
    }

    #[test]
    fn server_notices_are_not_chat() {
        let result = sorted("Use support@constantiam.net to contact the admin", false, false, None);
        assert_eq!(result.kind, Kind::Server);
    }

    #[test]
    fn strips_and_rejects_tablist_dummy_names() {
        assert_eq!(
            clean_player_name("§1§r§o§f§0§8§c§r"),
            None,
            "colour-code dummy should drop"
        );
        assert_eq!(clean_player_name("§4§3§3§k§e§6§8§3"), None);
        assert_eq!(clean_player_name("§b§0§6§m§o§2§0§o"), None);
        assert_eq!(clean_player_name("0boz").as_deref(), Some("0boz"));
        assert_eq!(clean_player_name("§a0boz").as_deref(), Some("0boz"));
        assert_eq!(clean_player_name("renniethe_elf").as_deref(), Some("renniethe_elf"));
        assert_eq!(
            clean_player_name(".SlyNebula3267").as_deref(),
            Some(".SlyNebula3267")
        );
        assert_eq!(clean_player_name("bob").as_deref(), Some("bob"));
    }

    #[test]
    fn formatted_dummy_join_leave_has_no_subject() {
        let leave = sorted("§4§3§3§k§e§6§8§3 left the game", false, false, None);
        assert_eq!(leave.kind, Kind::Leave);
        assert_eq!(leave.subject, None, "NPC leftover codes must not be a player");

        let junk = sorted("§1§r§o§f§0§8§c§r left the game", false, false, None);
        assert_eq!(junk.kind, Kind::Leave);
        assert_eq!(junk.subject, None);

        let real = sorted("renniethe_elf left the game", false, false, None);
        assert_eq!(real.kind, Kind::Leave);
        assert_eq!(real.subject.as_deref(), Some("renniethe_elf"));
    }

    #[test]
    fn cutesmp_system_spam_is_not_bridged() {
        for line in [
            "Unknown command.",
            "Remember to /vote to get free rewards",
            "You still have daily quests to complete !",
            "Quests\nYou still have daily quests to complete !",
            "[ WELCOME ] 0boz to CuteSMP",
            "You're protected from attack while your inventory is empty",
        ] {
            let result = sorted(line, false, false, None);
            assert_eq!(result.kind, Kind::Unknown, "{line}");
            assert_eq!(result.sender, None, "{line}");
        }

        let quests = sorted("Quests: You still have daily quests to complete !", false, false, None);
        assert_ne!(quests.kind, Kind::Chat);
        assert_eq!(quests.sender, None);
    }

    #[test]
    fn cutesmp_player_chat_is_clean() {
        let ranked = sorted(
            "[entityexisting] Fairy entityexisting [Axolotl]: welcome!",
            false,
            false,
            None,
        );
        assert_eq!(ranked.kind, Kind::Chat);
        assert_eq!(ranked.sender.as_deref(), Some("entityexisting"));
        assert_eq!(ranked.content.as_deref(), Some("welcome!"));
        assert_eq!(ranked.sender_label, None);

        let ad = sorted(
            ".lenalovesyogurt [i] come get your free ticket! /warp shop",
            false,
            false,
            None,
        );
        assert_eq!(ad.kind, Kind::Chat);
        assert_eq!(ad.sender.as_deref(), Some(".lenalovesyogurt"));
        assert!(ad.content.as_deref().unwrap_or("").contains("come get your free ticket"));
    }

    #[test]
    fn real_death_is_not_spam() {
        let result = sorted("Accolori fell from a high place", false, false, None);
        assert_eq!(result.kind, Kind::Death);
        assert_eq!(result.subject.as_deref(), Some("Accolori"));
    }

    #[test]
    fn server_notices_are_never_deaths() {
        // A discovered-template harvester once filed this 6b6t advert as a death
        // template, so every airing of it was stored as `6b6t` dying — and the
        // feed rendered it as a player line with a head.
        let notice = "---------------------------
6b6t has many commands, but do you know them all? Check out the 6b6t Commands page to see a full list.
---------------------------";
        let result = sorted(notice, false, false, None);
        assert_eq!(result.kind, Kind::Server, "{notice}");
        assert_eq!(result.subject, None);
    }

    #[test]
    fn sixbsixt_server_brand_is_not_a_player() {
        // Live 6b6t rows: the server account uses the same `»` format as players,
        // so classify was storing kind=c with sender 6Builders6Tools / 6b6t.
        for line in [
            "6b6t » ==pal==",
            "[6b6t] Keep the Dupe Event running - buy a rank from the 6b6t Shop",
            "6b6t: Join our Discord with /discord while waiting.",
            "6b6t will soon come back online. Join our Discord with /discord while waiting.",
            "Player StarTrap_exe purchased the Elite Rank and extended the Dupe Event by 1 hour.",
            "Connecting to the server...",
        ] {
            let result = sorted(line, false, false, None);
            assert_eq!(result.kind, Kind::Server, "{line}");
            assert_eq!(result.sender, None, "{line}");
        }

        // 6Builders6Tools is a player account that posts with a rank prefix,
        // not the server brand: its lines belong in the feed as chat.
        for line in [
            "[APE 🍰] 6Builders6Tools » Who wants a signed book?",
            "6Builders6Tools » Keep DUPING and BUYING RANKS!!!",
        ] {
            let result = sorted(line, false, false, None);
            assert_eq!(result.kind, Kind::Chat, "{line}");
            assert_eq!(result.sender.as_deref(), Some("6Builders6Tools"), "{line}");
        }

        let ranked = sorted(
            "[Prime] TheGroupProject » Ranked Players Only!",
            false,
            false,
            None,
        );
        assert_eq!(ranked.kind, Kind::Chat);
        assert_eq!(ranked.sender.as_deref(), Some("TheGroupProject"));

        let plain = sorted("jointedx21 » bro i keep getting killed", false, false, None);
        assert_eq!(plain.kind, Kind::Chat);
        assert_eq!(plain.sender.as_deref(), Some("jointedx21"));
    }

#[test]
fn parses_every_form_these_servers_actually_send() {
    // 6b6t
    assert_eq!(secs("Server restarts in 1s"), Some(1));
    assert_eq!(secs("Server restarts in 10s"), Some(10));
    assert_eq!(secs("Server restarts in 1m"), Some(60));
    assert_eq!(secs("Server restarts in 1m 15s"), Some(75));
    assert_eq!(
        secs("This proxy will restart in 10m. You will be reconnected automatically."),
        Some(600)
    );
    assert_eq!(
        secs("This proxy is restarting now. You will be reconnected automatically."),
        Some(0)
    );
    // 2b2t
    assert_eq!(secs("Server restarting in 1 second..."), Some(1));
    assert_eq!(secs("Server restarting in 10 seconds..."), Some(10));
    assert_eq!(secs("Server restarting in 2 minutes..."), Some(120));
    // vanillaplus
    assert_eq!(secs("RESTART | Server restarting in 16s"), Some(16));
    assert_eq!(secs("RESTART | Server restarting in 1m 00s"), Some(60));
    assert_eq!(secs("The server will restart in 30s."), Some(30));
}

#[test]
fn ignores_lines_that_are_not_countdowns() {
    assert_eq!(secs("Herobrine joined the game"), None);
    assert_eq!(secs("6B6T RESTARTING !!!!!"), None);
    assert_eq!(secs("=restart"), None);
    // A player grumbling about restarts must never clear the tab list.
    assert_eq!(secs("$addfaq qbasty like restart the server"), None);
}

#[test]
fn countdowns_longer_than_a_number_are_refused() {
    let patterns = ChatPatterns::new().expect("the patterns compile");
    let long = "Server restarts in 18446744073709551615 minutes";
    assert!(matches!(read_countdown(&patterns, long), Err(CountdownError::TooLong)));
    assert!(matches!(read_countdown(&patterns, "Server restarts in 5m"), Ok(Some(300))));
}

#[test]
fn a_file_without_templates_is_not_taken_over() {
    let comments = vec![TemplateGroup {
        key: "_old".to_string(),
        entries: Some(vec![TemplateEntry::Text("%1$s fell".to_string())]),
    }];
    let none = matchers_from(&templates_in(&comments), &Vec::new());
    assert!(matches!(if_any(none), Err(ReloadError::NoMatchers)));
    let raw = r#"{"_old": ["%1$s fell"]}"#;
    assert!(matches!(reload_custom_deaths(raw, "{}"), Err(ReloadError::NoMatchers)));
    assert!(matches!(reload_custom_deaths("{", "{}"), Err(ReloadError::InvalidJson)));
    assert!(reload_custom_deaths("[]", &table_source(&["%1$s fell"])).is_ok());
}

#[test]
fn files_give_what_their_groups_give() {
    let read = build_death_matchers(&custom_source(), &table_source(VANILLA));
    let given = matchers_from(&templates_in(&groups()), &table());
    assert_eq!(read.len(), given.len());
    for line in ["Steve fell to death.", "Steve assassinated Alex with Axe", "Steve drowned"] {
        assert_eq!(match_death(&read, line), match_death(&given, line));
    }
    assert_eq!(
        match_death(&read, "Steve assassinated Alex with Axe"),
        Some(("Alex".to_string(), Some("Steve".to_string())))
    );
}

#[test]
fn files_that_cannot_be_read_give_nothing() {
    assert!(custom_death_templates("not json").is_empty());
    assert!(custom_death_templates("[\"%1$s fell\"]").is_empty());
    let table = table_source(&["%1$s fell"]);
    assert_eq!(build_death_matchers("not json", &table).len(), 1);
    assert_eq!(build_death_matchers(&custom_source(), "not json").len(), 0);
    assert_eq!(build_death_matchers(&custom_source(), r#"{"a": 1}"#).len(), 0);
    assert_eq!(table_in(r#"{"b": "y", "a": "x"}"#), Some(vec!["x".to_string(), "y".to_string()]));
    assert_eq!(table_in(r#"["x"]"#), None);
    let raw = r#"{"b": ["%1$s fell by %2$s", 3, {"template": "%2$s won", "victim": -1}],
        "a": [{"template": "%2$s bit %1$s", "victim": 1, "killer": 2}, {"victim": 2}], "c": "x"}"#;
    let all = custom_death_templates(raw);
    assert_eq!(all.len(), 3);
    assert_eq!(
        (all[0].template.as_str(), all[0].victim_group, all[0].killer_group),
        ("%2$s bit %1$s", 1, Some(2))
    );
    assert_eq!(
        (all[1].template.as_str(), all[1].victim_group, all[1].killer_group),
        ("%1$s fell by %2$s", 1, Some(2))
    );
    assert_eq!(
        (all[2].template.as_str(), all[2].victim_group, all[2].killer_group),
        ("%2$s won", 1, None)
    );
    assert_eq!(death_vocabulary(r#"{"x": ["%1$s Blew up"]}"#, "not json"), vec!["blew"]);
    assert_eq!(death_vocabulary("not json", r#"{"x": "%1$s drowned"}"#), vec!["drowned"]);
    assert_eq!(
        death_vocabulary(r#"{"x": ["%1$s Blew up"]}"#, r#"{"x": "%1$s drowned"}"#),
        vec!["blew", "drowned"]
    );
}

#[test]
fn names_are_stripped_of_codes_once() {
    for (raw, plain) in [
        ("&azed", "zed"),
        ("&zed", "&zed"),
        ("&§azed", "&zed"),
        ("&&aa", "&&aa"),
        ("a&&b", "a&&b"),
        ("zed&", "zed"),
        ("&§a", ""),
        ("§azed§", "zed"),
        ("&§ab", ""),
        ("§&azed", "azed"),
    ] {
        let once = strip_legacy_formatting(raw);
        assert_eq!(once, plain, "{raw}");
        assert_eq!(strip_legacy_formatting(&once), once, "{raw}");
        assert!(!once.contains('§'), "{raw}");
    }
    assert_eq!(clean_player_name("zed&").as_deref(), Some("zed"));
    let plain = "§cTom §land Jerry";
    assert_eq!(strip_legacy_formatting(plain), strip_section_sign(plain));
    assert_eq!(strip_section_sign(plain), "Tom and Jerry");
}

#[test]
fn notices_are_notices_however_they_are_written() {
    for line in ["Unknown command.", "Remember to /vote today", "hello there"] {
        let spam = is_bridge_spam(line);
        assert_eq!(spam, line != "hello there");
        assert_eq!(is_bridge_spam(&line.to_ascii_uppercase()), spam);
        assert_eq!(is_bridge_spam(&line.replace(' ', " \t ")), spam);
        assert_eq!(is_bridge_spam(&format!("§a{line}§r")), spam);
    }
    assert!(!is_bridge_spam("§a §r "));
    assert!(is_bridge_spam("unknown§  command"));
    assert!(!is_bridge_spam("unknown§ command"));
}

#[test]
fn what_is_said_of_a_line_is_consistent() {
    for line in [
        "<Notch> hello",
        "<Quests> hello",
        "Notch joined the game",
        "Notch drowned",
        "Notch was shot by Alex",
        "The end is near",
        "",
    ] {
        let c = sorted(line, false, false, None);
        assert_eq!(c.sender.is_some(), c.content.is_some(), "{line}");
        if let Some(sender) = &c.sender {
            assert_eq!(c.kind, Kind::Chat);
            assert!(!is_plugin_speaker(sender));
            assert_eq!(clean_player_name(sender).as_ref(), Some(sender));
        }
        assert!(c.sender_label.is_none() || c.sender.is_some());
        assert!(c.killer.is_none() || (c.kind == Kind::Death && c.subject.is_some()));
    }
    assert_eq!(sorted("<Quests> hello", false, false, None).kind, Kind::Server);
    let named = chat_from_capture("x: hi", "&aquests".to_string(), "hi".to_string());
    assert_eq!((named.kind, named.sender.as_deref()), (Kind::Chat, Some("quests")));
    let plugin = chat_from_capture("x: hi", "Quests".to_string(), "hi".to_string());
    assert_eq!((plugin.kind, plugin.sender), (Kind::Server, None));
    assert_eq!(sorted("Notch was shot by Alex", false, false, None).killer.as_deref(), Some("Alex"));
}

#[test]
fn templates_name_the_killer_behind_by() {
    let groups = vec![TemplateGroup {
        key: "x".to_string(),
        entries: Some(vec![
            TemplateEntry::Text("%1$s was slain by %2$s".to_string()),
            TemplateEntry::Text("%1$s fell while fighting %2$s".to_string()),
            TemplateEntry::Other,
            TemplateEntry::Slots {
                template: Some("%1$s beat %2$s".to_string()),
                victim: Some(2),
                killer: None,
            },
        ]),
    }];
    let all = templates_in(&groups);
    assert_eq!(all.len(), 3);
    assert_eq!((all[0].victim_group, all[0].killer_group), (1, Some(2)));
    assert_eq!((all[1].victim_group, all[1].killer_group), (1, None));
    assert_eq!((all[2].victim_group, all[2].killer_group), (2, None));
}

#[test]
fn translation_keys_are_believed_ahead_of_text() {
    let join = sorted("whatever it says", true, false, Some("multiplayer.player.joined"));
    assert_eq!(join.kind, Kind::Join);
    assert_eq!(sorted("Notch joined the game", true, true, None).kind, Kind::Whisper);
}
