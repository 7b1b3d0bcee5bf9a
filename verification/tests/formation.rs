use fuiz::formation::{concatenated, PreferenceGroups};
use fuiz::game::Profanity;
use fuiz::names::{plural_of, Error, NameStyle, Names, NamingScheme};
use fuiz::random::in_random_order;
use fuiz::session::Tunnels;
use fuiz::teams::TeamManager;
use fuiz::watcher::{Id, PlayerValue, Value, ValueKind, Watchers};

fn ids(numbers: &[u128]) -> Vec<Id> {
    numbers.iter().map(|number| Id(*number)).collect()
}

fn players(count: u128) -> (Watchers, Tunnels, Vec<Id>) {
    let mut watchers = Watchers::with_host_id(Id(0), 100);
    let mut tunnels = Tunnels::new();
    let ids: Vec<Id> = (1..=count).map(Id).collect();
    for id in &ids {
        assert!(watchers.add_watcher(*id, Value::Player(PlayerValue::Individual)).is_ok());
        tunnels.insert(*id);
    }
    (watchers, tunnels, ids)
}

#[test]
fn groups_are_listed_by_size() {
    let mut groups = PreferenceGroups::new();
    groups.insert(ids(&[1, 2, 3]));
    groups.insert(ids(&[9]));
    groups.insert(ids(&[4, 5]));
    groups.insert(ids(&[7]));
    groups.insert(ids(&[7]));
    assert_eq!(groups.len(), 4);
    assert_eq!(groups.count_fitting(2), 3);
    assert_eq!(groups.count_fitting(0), 0);
    assert_eq!(groups.remove(0), ids(&[7]));
    assert_eq!(groups.size(0), 1);
    assert_eq!(groups.into_vec(), vec![ids(&[9]), ids(&[4, 5]), ids(&[1, 2, 3])]);
}

#[test]
fn items_are_put_in_random_order() {
    let items: Vec<u32> = (0..50).collect();
    let mut shuffled = in_random_order(items.clone());
    assert_ne!(shuffled, items);
    shuffled.sort();
    assert_eq!(shuffled, items);
}

#[test]
fn nobody_is_left_alone_beside_a_team() {
    for count in 3..15 {
        let (mut watchers, tunnels, ids) = players(count);
        let mut names = Names::new();
        let mut manager = TeamManager::new(3, false, NameStyle::default());
        manager.set_preferences(ids[0], vec![ids[1]]);
        manager.set_preferences(ids[1], vec![ids[0]]);
        assert!(manager.finalize(&mut watchers, &mut names, &tunnels, Profanity::Censor));
        let sizes: Vec<usize> = ids.iter().map(|id| manager.team_members(*id).unwrap().len()).collect();
        assert!(sizes.iter().all(|size| *size >= 2));
    }
}

#[test]
fn groups_are_put_together() {
    assert_eq!(concatenated(&ids(&[1, 2]), &ids(&[3])), ids(&[1, 2, 3]));
}

#[test]
fn everyone_is_in_one_team() {
    for count in 1..20 {
        for size in 1..6 {
            for random in [false, true] {
                let (mut watchers, tunnels, ids) = players(count);
                let mut names = Names::new();
                let mut manager = TeamManager::new(size, random, NameStyle::default());
                assert!(manager.finalize(&mut watchers, &mut names, &tunnels, Profanity::Censor));
                let mut placed: Vec<Id> = Vec::new();
                for team in manager.all_ids() {
                    let members: Vec<Id> = ids
                        .iter()
                        .copied()
                        .filter(|id| manager.get_team(*id) == Some(team))
                        .collect();
                    assert!(!members.is_empty());
                    placed.extend(members);
                }
                placed.sort();
                assert_eq!(placed, ids);
                for id in &ids {
                    assert!(manager.team_members(*id).unwrap().contains(id));
                    assert!(manager.alive_team_index(*id, &tunnels) < manager.alive_team_size(*id, &tunnels));
                }
            }
        }
    }
}

#[test]
fn random_teams_differ_by_one_player_at_most() {
    let (mut watchers, tunnels, ids) = players(11);
    let mut names = Names::new();
    let mut manager = TeamManager::new(3, true, NameStyle::default());
    assert!(manager.finalize(&mut watchers, &mut names, &tunnels, Profanity::Censor));
    let mut sizes: Vec<usize> = ids.iter().map(|id| manager.team_members(*id).unwrap().len()).collect();
    sizes.sort();
    assert_eq!(sizes, vec![2, 2, 3, 3, 3, 3, 3, 3, 3, 3, 3]);
}

#[test]
fn mutual_choices_make_a_group() {
    let (_, _, ids) = players(4);
    let mut manager = TeamManager::new(2, false, NameStyle::default());
    manager.set_preferences(ids[0], vec![ids[3]]);
    manager.set_preferences(ids[3], vec![ids[0], ids[1]]);
    manager.set_preferences(ids[1], vec![ids[3]]);
    let mut groups = manager.create_preference_groups(&ids);
    for group in &mut groups {
        group.sort();
    }
    groups.sort();
    assert_eq!(groups, vec![vec![ids[0], ids[3]], vec![ids[1]], vec![ids[2]]]);
}

#[test]
fn late_players_join_a_team() {
    let (mut watchers, mut tunnels, ids) = players(4);
    let mut names = Names::new();
    let mut manager = TeamManager::new(2, false, NameStyle::default());
    assert_eq!(manager.add_player(ids[0], &mut watchers), None);
    assert!(manager.finalize(&mut watchers, &mut names, &tunnels, Profanity::Censor));
    let late = Id(50);
    tunnels.insert(late);
    assert!(watchers.add_watcher(late, Value::Player(PlayerValue::Individual)).is_ok());
    let team = manager.add_player(late, &mut watchers);
    assert!(team.is_some());
    assert_eq!(watchers.get_team_name(late), team);
    assert_eq!(manager.team_members(late).unwrap().len(), 3);
    let again = manager.add_player(late, &mut watchers);
    assert_eq!(again, team);
    assert_eq!(manager.team_members(late).unwrap().len(), 3);
}

#[test]
fn teams_are_named() {
    let (mut watchers, tunnels, _) = players(6);
    let mut names = Names::new();
    let mut manager = TeamManager::new(2, false, NameStyle::Petname(2));
    assert!(manager.team_names().is_none());
    assert!(manager.finalize(&mut watchers, &mut names, &tunnels, Profanity::Censor));
    let list = manager.team_names().unwrap();
    assert_eq!(list.exact_count(), 3);
    for (team, name) in manager.all_ids().iter().zip(list.items()) {
        assert_eq!(names.get_name(team), Some(*name));
    }
}

#[test]
fn those_who_left_are_in_no_team() {
    let (mut watchers, tunnels, ids) = players(3);
    let mut names = Names::new();
    watchers.watcher_left(ids[1]);
    assert_eq!(watchers.specific_count(ValueKind::Player), 2);
    let mut manager = TeamManager::new(1, true, NameStyle::default());
    assert!(manager.finalize(&mut watchers, &mut names, &tunnels, Profanity::Allow));
    assert_eq!(manager.get_team(ids[1]), None);
    assert_eq!(manager.all_ids().len(), 2);
}

#[test]
fn names_are_in_title_case() {
    for _ in 0..50 {
        for style in [NameStyle::Petname(2), NameStyle::Petname(3), NameStyle::Roman(3)] {
            let name = style.get_name();
            assert!(name.split(' ').all(|word| word.chars().next().unwrap().is_uppercase()));
        }
    }
}

#[test]
fn plural_names_differ_from_singular_ones() {
    struct Fixed;
    impl NamingScheme for Fixed {
        fn get_name(&self) -> String {
            "Happy Cat".to_string()
        }
    }
    assert_eq!(Fixed.get_plural_name(), "Happy Cats");
}

#[test]
fn words_are_put_in_the_plural() {
    assert_eq!(plural_of("Happy Cat"), "Happy Cats");
    assert_eq!(plural_of("Goose"), "Geese");
}

#[test]
fn ones_own_name_is_assigned_not_used() {
    let mut names = Names::new();
    assert_eq!(names.set_name(Id(1), "Ann", Profanity::Censor), Ok("Ann"));
    assert_eq!(names.set_name(Id(1), " Ann ", Profanity::Censor), Err(Error::Assigned));
    assert_eq!(names.set_name(Id(2), "Ann", Profanity::Censor), Err(Error::Used));
    assert_eq!(names.set_name(Id(1), "Anna", Profanity::Censor), Err(Error::Assigned));
    assert_eq!(names.get_id("Ann"), Some(Id(1)));
    assert_eq!(names.get_name(&Id(1)), Some("Ann"));
}

#[test]
fn names_of_teams_are_filtered() {
    struct Rude;
    impl NamingScheme for Rude {
        fn get_name(&self) -> String {
            "shit".to_string()
        }
        fn get_plural_name(&self) -> String {
            "shit".to_string()
        }
    }
    let mut names = Names::new();
    let manager = TeamManager::new(2, false, Rude);
    assert_eq!(
        manager.generate_unique_team_name(Id(9), &mut names, Profanity::Allow),
        Some("shit".to_string())
    );
    assert_eq!(names.get_name(&Id(9)), Some("shit"));
}

#[test]
fn those_who_chose_each_other_play_together() {
    for count in 2..12 {
        let (mut watchers, tunnels, ids) = players(count);
        let mut names = Names::new();
        let mut manager = TeamManager::new(3, false, NameStyle::default());
        let (first, last) = (ids[0], ids[ids.len() - 1]);
        for id in &ids {
            manager.set_preferences(*id, vec![first]);
        }
        manager.set_preferences(first, vec![last]);
        assert_eq!(manager.get_preferences(first), Some(vec![last]));
        assert!(manager.finalize(&mut watchers, &mut names, &tunnels, Profanity::Censor));
        assert!(manager.get_team(first).is_some());
        assert_eq!(manager.get_team(first), manager.get_team(last));
        assert_eq!(manager.team_members(first), manager.team_members(last));
    }
}

#[test]
fn nobody_makes_one_empty_team() {
    let (mut watchers, tunnels, _) = players(0);
    let mut names = Names::new();
    let mut manager = TeamManager::new(3, true, NameStyle::default());
    manager.set_preferences(Id(1), vec![Id(2)]);
    assert_eq!(manager.get_preferences(Id(1)), None);
    assert!(manager.finalize(&mut watchers, &mut names, &tunnels, Profanity::Censor));
    assert_eq!(manager.all_ids().len(), 1);
    assert_eq!(manager.team_names().unwrap().exact_count(), 1);
}

#[test]
fn those_who_can_be_reached_have_the_first_places() {
    let (mut watchers, tunnels, ids) = players(5);
    let mut names = Names::new();
    let mut manager = TeamManager::new(5, true, NameStyle::default());
    assert!(manager.finalize(&mut watchers, &mut names, &tunnels, Profanity::Censor));
    let members = manager.team_members(ids[0]).unwrap();
    let mut some = Tunnels::new();
    for i in [1, 2, 4] {
        some.insert(members[i]);
    }
    let places: Vec<usize> = members.iter().map(|id| manager.alive_team_index(*id, &some)).collect();
    assert_eq!(places, vec![0, 0, 1, 0, 2]);
    assert!(members.iter().all(|id| manager.alive_team_size(*id, &some) == 3));
    assert_eq!(manager.alive_team_size(Id(99), &some), 1);
}

#[test]
fn inappropriate_names_are_allowed_on_demand() {
    let mut names = Names::new();
    assert_eq!(names.set_name(Id(1), "shit", Profanity::Censor), Err(Error::Sinful));
    assert_eq!(names.set_name(Id(1), "shit", Profanity::Allow), Ok("shit"));
}

#[test]
fn refused_names_stay_free() {
    let mut names = Names::new();
    assert_eq!(names.set_name(Id(1), "Ann", Profanity::Censor), Ok("Ann"));
    assert_eq!(names.set_name(Id(1), "Anna", Profanity::Censor), Err(Error::Assigned));
    assert_eq!(names.set_name(Id(2), "Anna", Profanity::Censor), Ok("Anna"));
    assert_eq!(names.get_name_or_unknown(&Id(2)), "Anna");
    assert_eq!(names.get_name_or_unknown(&Id(3)), "Unknown");
}

#[test]
fn long_names_are_counted_in_characters() {
    let mut names = Names::new();
    let name = "я".repeat(30);
    assert_eq!(names.set_name(Id(1), &name, Profanity::Censor), Ok(name.as_str()));
    assert_eq!(names.set_name(Id(2), &"я".repeat(31), Profanity::Censor), Err(Error::TooLong));
}

#[test]
fn names_are_claimed_by_what_is_left_of_them() {
    let mut names = Names::new();
    assert_eq!(names.claim_name(Id(1), 31, "Ann", false), Err(Error::TooLong));
    assert_eq!(names.claim_name(Id(1), 3, "Ann", true), Err(Error::Sinful));
    assert_eq!(names.claim_name(Id(1), 3, "", false), Err(Error::Empty));
    assert_eq!(names.claim_name(Id(1), 3, "Ann", false), Ok(()));
    assert_eq!(names.claim_name(Id(2), 3, "Ann", false), Err(Error::Used));
}

#[test]
fn plural_words_end_a_plural_name() {
    for _ in 0..20 {
        let pets = fuiz::names::pets::pet_name_plural(&fuiz::names::pets::NameConfig { parts: 3 });
        assert_eq!(pets.len(), 3);
        assert!(fuiz::names::pets::NOUNS_PLURAL.iter().any(|row| row.contains(&pets[2])));
        let romans = fuiz::names::romans::roman_name_plural(&fuiz::names::romans::NameConfig { praenomen: true });
        assert_eq!(romans.len(), 3);
        assert!(fuiz::names::romans::COGNOMEN_PLURAL.iter().any(|row| row.contains(&romans[2])));
    }
    assert!(fuiz::names::pets::pet_name(&fuiz::names::pets::NameConfig { parts: 0 }).is_empty());
}
