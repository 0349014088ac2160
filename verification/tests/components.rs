use p2p_share::chat::{Manager, ROOMS_MAX_COUNT};
use p2p_share::contacts::ContactManager;
use p2p_share::frame::Frame;
use p2p_share::games::{Breakout, Game, Key, MainMenu};
use p2p_share::kv::Storage;
use p2p_share::log::{create, Level};

#[test]
fn storage_methods_tests() {
    let mut storage = Storage::temporary();
    let _ = storage.insert("k1".to_string(), "v1".to_string());
    let _ = storage.insert("k2".to_string(), "v2".to_string());
    let _ = storage.insert("k3".to_string(), "v3".to_string());
    let _ = storage.insert("k4".to_string(), "v4".to_string());
    let _ = storage.insert("k5".to_string(), "v5".to_string());
    let _ = storage.insert("k6".to_string(), "v5".to_string());

    {
        let result = storage.insert("k2".to_string(), "v2".to_string());
        assert!(result.is_err());
        assert_eq!(result.unwrap_err(), "Key: k2 already exists".to_string());
    }
    {
        let result = storage.get("k3".to_string());
        assert!(result.is_ok());
        assert!(result.unwrap() == "v3");
    }
    {
        let mut result = storage.delete("k4".to_string());
        assert!(result.is_ok());
        result = storage.delete("k4".to_string());
        assert!(result.is_err());
    }
    {
        let mut result = storage.list();
        let pattern = vec![
            ("k1".to_string(), "v1".to_string()),
            ("k2".to_string(), "v2".to_string()),
            ("k3".to_string(), "v3".to_string()),
            ("k5".to_string(), "v5".to_string()),
            ("k6".to_string(), "v5".to_string()),
        ];
        assert!(result.len() == pattern.len());

        result.sort_by(|a, b| a.0.cmp(&b.0));
        for i in 0..result.len() {
            let (r_first, r_second) = &result[i];
            let (p_first, p_second) = &pattern[i];
            assert!(*r_first == *p_first);
            assert!(*r_second == *p_second);
        }
    }

    assert!(storage.file.is_none());
}

#[test]
fn flag_test() {
    {
        let mut storage = Storage::temporary();
        assert!(storage.update_file == false);
        let _ = storage.insert("k1".to_string(), "v1".to_string());
        assert!(storage.update_file == true);
    }
    {
        let mut storage = Storage::temporary();
        storage.load_entry("dd".to_string(), "aa".to_string());
        assert!(storage.update_file == false);
        let _ = storage.delete("k1".to_string());
        assert!(storage.update_file == false);
        let _ = storage.delete("dd".to_string());
        assert!(storage.update_file == true);
    }
    {
        let mut storage = Storage::temporary();
        storage.load_entry("dd".to_string(), "aa".to_string());
        assert!(storage.update_file == false);
        let _ = storage.insert("dd".to_string(), "v1".to_string());
        assert!(storage.update_file == false);
    }
    {
        let mut storage = Storage::temporary();
        storage.load_entry("dd".to_string(), "aa".to_string());
        storage.load_entry("bb".to_string(), "cc".to_string());
        assert!(storage.update_file == false);
        let _ = storage.get("dd".to_string());
        let _ = storage.list();
        assert!(storage.update_file == false);
    }
}

#[test]
fn test_chat_room_manager() {
    const MAIN_ROOM_NAME: &str = "global";
    let mut manager = Manager::create();
    assert_eq!(manager.get_rooms(), vec![MAIN_ROOM_NAME]);

    {
        assert_eq!(
            manager.add_room(MAIN_ROOM_NAME.to_string()),
            Err(format!("There is already a chat room with name {}", MAIN_ROOM_NAME))
        );
        assert_eq!(manager.get_rooms(), vec![MAIN_ROOM_NAME]);

        let mut names = Vec::<String>::with_capacity(ROOMS_MAX_COUNT);
        for i in 0..ROOMS_MAX_COUNT - 1 {
            let room_name = format!("Room no {}", i);
            assert_eq!(manager.add_room(room_name.clone()), Ok(()));
            names.push(room_name);
        }

        let mut rooms = manager.get_rooms();
        rooms.sort();
        names.sort();
        assert_eq!(rooms.len(), ROOMS_MAX_COUNT);
        for i in 0..ROOMS_MAX_COUNT - 1 {
            assert_eq!(rooms[i], names[i]);
        }

        assert_eq!(rooms.last().unwrap(), MAIN_ROOM_NAME);
    }

    assert_eq!(
        manager.add_room("fdasfd".to_string()),
        Err("Max rooms amount in chat is reached! Cannot create new ones.".to_string())
    );

    {
        let room_to_check = "Room no 5";
        assert_eq!(
            manager.get_messages_from_room(room_to_check.to_string()).map(|v| v.len()),
            Ok(0)
        );
        let new_name = "renamed_room";
        assert_eq!(
            manager.rename_room(room_to_check.to_string(), new_name.to_string()),
            Ok(())
        );
        assert_eq!(
            manager.rename_room(room_to_check.to_string(), new_name.to_string()),
            Err(format!("Cannot rename room: there is no such room: {}", room_to_check))
        );
        assert_eq!(
            manager.get_messages_from_room(new_name.to_string()).map(|v| v.len()),
            Ok(0)
        );
        assert_eq!(
            manager.get_messages_from_room(room_to_check.to_string()).map(|v| v.len()),
            Err(format!(
                "Cannot get messages from room: there is no such room: {}",
                room_to_check
            ))
        );
        assert_eq!(
            manager.rename_room(MAIN_ROOM_NAME.to_string(), new_name.to_string()),
            Err("Cannot rename room: renaming main chat room is not possible".to_string())
        );
        assert_eq!(manager.get_rooms().len(), ROOMS_MAX_COUNT);
    }

    {
        let room_to_delete = "Room no 7";
        assert_eq!(
            manager.get_messages_from_room(room_to_delete.to_string()).map(|v| v.len()),
            Ok(0)
        );
        assert_eq!(manager.delete_room(room_to_delete.to_string()), Ok(()));
        assert_eq!(manager.get_rooms().len(), ROOMS_MAX_COUNT - 1);
        assert_eq!(
            manager.get_messages_from_room(room_to_delete.to_string()).map(|v| v.len()),
            Err(format!(
                "Cannot get messages from room: there is no such room: {}",
                room_to_delete
            ))
        );
    }

    {
        let nonexisting_room = "fdsafvsdafsd";
        let room_to_test = "Room no 3";
        let good_user = "goodguy";
        let bad_user = "badguy";

        assert_eq!(
            manager.insert_a_message_to_room(
                nonexisting_room.to_string(),
                good_user.to_string(),
                "some innocent message".to_string()
            ),
            Err(format!(
                "Cannot post a message into room: there is no such room: {}",
                nonexisting_room
            ))
        );
        assert_eq!(
            manager.insert_a_message_to_room(
                room_to_test.to_string(),
                good_user.to_string(),
                "some innocent message by good guy".to_string()
            ),
            Ok(())
        );
        assert_eq!(
            manager.insert_a_message_to_room(
                room_to_test.to_string(),
                bad_user.to_string(),
                "some innocent message by bad guy".to_string()
            ),
            Ok(())
        );
        assert_eq!(
            manager.get_messages_from_room(room_to_test.to_string()).unwrap().len(),
            2
        );
        let bad_message = "some bad message by bad guy";
        assert_eq!(
            manager.insert_a_message_to_room(
                room_to_test.to_string(),
                bad_user.to_string(),
                bad_message.to_string()
            ),
            Ok(())
        );
        assert_eq!(
            manager.insert_a_message_to_room(
                room_to_test.to_string(),
                good_user.to_string(),
                "Another innocent message".to_string()
            ),
            Ok(())
        );
        assert_eq!(
            manager.get_banned_users_in_room(room_to_test.to_string()),
            Ok(vec![])
        );
        assert_eq!(
            manager.get_banned_users_in_room(nonexisting_room.to_string()),
            Err(format!(
                "Cannot get list of banned users in room: there is no such room: {}",
                nonexisting_room
            ))
        );

        {
            let messages = manager.get_messages_from_room(room_to_test.to_string()).unwrap();
            assert_eq!(messages.len(), 4);
            let timestamp = messages
                .iter()
                .find(|x| x.get_user() == bad_user && x.get_message() == bad_message)
                .unwrap()
                .get_timestamp();
            assert_eq!(
                manager.remove_a_message_from_room(
                    room_to_test.to_string(),
                    bad_user.to_string(),
                    timestamp
                ),
                Ok(())
            );
        }
        assert_eq!(
            manager.get_messages_from_room(room_to_test.to_string()).unwrap().len(),
            3
        );

        assert_eq!(
            manager.ban_user_in_room(nonexisting_room.to_string(), bad_user.to_string()),
            Err(format!(
                "Cannot ban user: there is no such room: {}",
                nonexisting_room
            ))
        );
        assert_eq!(
            manager.ban_user_in_room(room_to_test.to_string(), bad_user.to_string()),
            Ok(())
        );
        assert_eq!(
            manager.ban_user_in_room(room_to_test.to_string(), bad_user.to_string()),
            Err(format!("User {} is already banned in: {}", bad_user, room_to_test))
        );
        assert_eq!(
            manager.get_banned_users_in_room(room_to_test.to_string()),
            Ok(vec![bad_user.to_string()])
        );
        assert_eq!(
            manager.get_banned_users_in_room(room_to_test.to_string()),
            Ok(vec![bad_user.to_string()])
        );

        assert_eq!(
            manager.insert_a_message_to_room(
                room_to_test.to_string(),
                bad_user.to_string(),
                "another bad message by bad guy".to_string()
            ),
            Err(format!(
                "Cannot post a message into room: user {} is banned in: {}",
                bad_user, room_to_test
            ))
        );
        assert_eq!(
            manager.insert_a_message_to_room(
                room_to_test.to_string(),
                good_user.to_string(),
                "another good message by good guy".to_string()
            ),
            Ok(())
        );
        assert_eq!(
            manager.get_messages_from_room(room_to_test.to_string()).unwrap().len(),
            4
        );

        assert_eq!(
            manager.ban_user_in_room(room_to_test.to_string(), good_user.to_string()),
            Ok(())
        );
        {
            let mut banned_list = manager
                .get_banned_users_in_room(room_to_test.to_string())
                .unwrap();
            banned_list.sort();
            assert_eq!(banned_list, vec![bad_user.to_string(), good_user.to_string()]);
        }

        assert_eq!(
            manager.unban_user_in_room(room_to_test.to_string(), good_user.to_string()),
            Ok(())
        );

        assert_eq!(
            manager.unban_user_in_room(room_to_test.to_string(), bad_user.to_string()),
            Ok(())
        );
        assert_eq!(
            manager.insert_a_message_to_room(
                room_to_test.to_string(),
                bad_user.to_string(),
                "another good message by bad guy".to_string()
            ),
            Ok(())
        );
        assert_eq!(
            manager.unban_user_in_room(room_to_test.to_string(), bad_user.to_string()),
            Err(format!("User {} is not banned in: {}", bad_user, room_to_test))
        );
        assert_eq!(
            manager.unban_user_in_room(nonexisting_room.to_string(), bad_user.to_string()),
            Err(format!(
                "Cannot unban user: there is no such room: {}",
                nonexisting_room
            ))
        );
        assert_eq!(
            manager.get_banned_users_in_room(room_to_test.to_string()),
            Ok(vec![])
        );

        let messages = manager.get_messages_from_room(room_to_test.to_string()).unwrap();
        assert_eq!(messages.len(), 5);
        assert_eq!(messages[0].get_user(), good_user);
        assert_eq!(messages[1].get_user(), bad_user);
        assert_eq!(messages[2].get_user(), good_user);
        assert_eq!(messages[3].get_user(), good_user);
        assert_eq!(messages[4].get_user(), bad_user);

        let mut timestamp: Option<i64> = None;

        for message in messages {
            if let Some(ts) = timestamp {
                let message_timemstamp = message.get_timestamp();
                assert!(ts <= message_timemstamp);
                timestamp = Some(message_timemstamp);
            } else {
                timestamp = Some(message.get_timestamp());
            }
        }
    }
}

#[test]
fn test_log() {
    {
        let logs = vec![
            create("main".to_string(), Level::Error, "something happened".to_string()),
            create("display".to_string(), Level::Info, "display is dead".to_string()),
            create("node".to_string(), Level::Error, "node is dead".to_string()),
            create("net".to_string(), Level::Info, "no connection".to_string()),
            create("display".to_string(), Level::Info, "display is dead".to_string()),
            create("display".to_string(), Level::Info, "display is dead".to_string()),
            create("display".to_string(), Level::Info, "display is dead".to_string()),
        ];

        let mut log_set = std::collections::BTreeSet::<i64>::new();
        for log in &logs {
            log_set.insert(log.timestamp);
        }

        let mut last_ts: Option<i64> = None;
        for ts in &log_set {
            match last_ts {
                None => last_ts = Some(*ts),
                Some(ll) => {
                    assert!(ll < *ts);
                    last_ts = Some(*ts);
                }
            }
        }
    }
    {
        let mut log = create("main".to_string(), Level::Info, "Something normal".to_string())
            .to_display_string()
            .unwrap();
        assert_eq!(log.split_off(34), "[main][Info] Something normal");
        let time_when_log_created = chrono::Utc::now();
        log = create("node".to_string(), Level::Error, "Something is no yes".to_string())
            .to_display_string()
            .unwrap();
        assert_eq!(log.split_off(34), "[node][Error] Something is no yes");

        let _ = log.pop();
        let _ = log.remove(0);

        let parsed_datetime = chrono::DateTime::parse_from_rfc3339(log.as_str());
        assert!(parsed_datetime.is_ok());
        assert_eq!(
            parsed_datetime.unwrap().timestamp(),
            time_when_log_created.timestamp()
        );
    }
}

#[test]
fn log_truncates_long_lines() {
    let long_text = "x".repeat(150);
    let mut log = create("main".to_string(), Level::Debug, long_text);
    log.truncate();
    let shown = log.content.clone();
    assert_eq!(shown.len(), 106);
    assert!(shown.ends_with(" (...)"));
    assert_eq!(log.get_level(), Level::Debug);
}

#[test]
fn contact_book_operations() {
    let mut book = ContactManager::new();
    assert_eq!(
        book.add_contact(
            "ada".to_string(),
            "123".to_string(),
            "ada@example.com".to_string(),
            "street 1".to_string()
        ),
        Ok(())
    );
    assert_eq!(
        book.add_contact(
            "ada".to_string(),
            "456".to_string(),
            "other@example.com".to_string(),
            "street 2".to_string()
        ),
        Err("Contact already exists".to_string())
    );
    assert!(book.find_contact_by_name(&"ada".to_string()).is_some());
    assert!(book.find_contact_by_email(&"ada@example.com".to_string()).is_some());
    assert!(book.find_contact_by_name(&"bob".to_string()).is_none());
    assert_eq!(
        book.update_contact(
            "ada".to_string(),
            Some("street 9".to_string()),
            None,
            None,
            None
        ),
        Ok(())
    );
    assert_eq!(
        book.update_contact("".to_string(), None, None, None, None),
        Err("name or email cannot be empty".to_string())
    );
    assert_eq!(book.remove_contact("ada".to_string()), Ok(()));
    assert_eq!(
        book.remove_contact("ada".to_string()),
        Err("No such contact".to_string())
    );
}

#[test]
fn frame_hands_out_its_contents_once() {
    let mut frame = Frame::create_frame(2, 1, vec!['a', 'b']);
    assert_eq!(frame.get_width(), 2);
    assert_eq!(frame.get_height(), 1);
    assert_eq!(frame.get_display_content(), vec!['a', 'b']);
    assert_eq!(frame.get_display_content(), Vec::<char>::new());
}

#[test]
fn menu_moves_and_confirms() {
    let mut menu = MainMenu::create();
    assert!(menu.is_finished().is_none());
    menu.accept_key(Key::Down);
    menu.accept_key(Key::Down);
    menu.accept_key(Key::Down);
    assert_eq!(menu.current_chosen_game, 2);
    menu.accept_key(Key::Up);
    assert_eq!(menu.current_chosen_game, 1);
    menu.accept_key(Key::Enter);
    assert_eq!(menu.is_finished(), Some(Game::Snake));
    assert_eq!(Game::games_available_count(), 3);
}

#[test]
fn breakout_board_is_laid_out() {
    let game = Breakout::create(0);
    assert_eq!(game.board.len(), 57 * 30);
    assert!(!game.is_finished);
    assert_eq!(game.paddle.len(), 5);
    let bricks: usize = game.board.iter().filter(|c| **c == 'X').count();
    assert_eq!(bricks, 80 * 6);
    assert_eq!(game.board[game.ball_position], '@');
    let mut game = game;
    let before = game.paddle[0];
    game.move_paddle(true);
    assert_eq!(game.paddle[0], before - 1);
    game.move_paddle(false);
    assert_eq!(game.paddle[0], before);
}
