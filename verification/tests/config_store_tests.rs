use tllm::config::{
    apply_config_line, cli_to_options, get_config_dir, get_conversations_dir, get_local_dir,
    merge_with_config, parse_config_bool, parse_provider, provider_to_api, CliConfig, Provider,
    Shell,
};
use tllm::http::ApiProvider;
use tllm::message::MessageType;
use tllm::store::{
    assemble_outgoing_messages, frame_payload, get_conversation_string, parse_picker_operations,
    pick_single_operation, read_be32, Message, Role, SearchBox,
};

fn empty_cli() -> CliConfig {
    CliConfig {
        message: None,
        system_prompt: None,
        list: None,
        load_last_conversation: None,
        editor: None,
        provider: None,
        open: None,
        respond: None,
        export_all: None,
        database: None,
        no_config: None,
        stream: None,
    }
}

#[test]
fn provider_names_parse_case_insensitively() {
    assert!(matches!(parse_provider("anthropic"), Ok(Provider::Anthropic)));
    assert!(matches!(parse_provider("OpenAI"), Ok(Provider::OpenAI)));
    assert!(parse_provider("gemini").is_err());
}

#[test]
fn provider_choice_selects_the_api() {
    assert!(matches!(provider_to_api(Some(Provider::Anthropic)), ApiProvider::Anthropic));
    assert!(matches!(provider_to_api(Some(Provider::OpenAI)), ApiProvider::OpenAi));
    assert!(matches!(provider_to_api(None), ApiProvider::OpenAi));
}

#[test]
fn well_known_directories_hang_off_home() {
    assert_eq!(get_config_dir("/home/u"), b"/home/u/.config/tllm".to_vec());
    assert_eq!(get_local_dir("/home/u"), b"/home/u/.local/tllm".to_vec());
    assert_eq!(
        get_conversations_dir("/home/u"),
        b"/home/u/.local/tllm/conversations".to_vec()
    );
}

#[test]
fn config_booleans_parse_their_spellings() {
    for v in ["true", "1", "yes", "on", "YES"] {
        assert_eq!(parse_config_bool(&v.as_bytes().to_vec()), Some(true));
    }
    for v in ["false", "0", "no", "off"] {
        assert_eq!(parse_config_bool(&v.as_bytes().to_vec()), Some(false));
    }
    assert_eq!(parse_config_bool(&b"maybe".to_vec()), None);
}

#[test]
fn config_lines_merge_with_comments_skipped() {
    let lines: Vec<Vec<u8>> = vec![
        b"# a comment".to_vec(),
        b"provider = openai".to_vec(),
        b"stream = true".to_vec(),
        b"system_prompt = be brief".to_vec(),
        b"not a pair".to_vec(),
    ];
    let merged = merge_with_config(empty_cli(), &lines);
    assert!(matches!(merged.provider, Some(Provider::OpenAI)));
    assert_eq!(merged.stream, Some(true));
    assert_eq!(merged.system_prompt, Some(b"be brief".to_vec()));
    assert_eq!(merged.list, None);
}

#[test]
fn a_bad_config_value_clears_the_flag() {
    let mut cli = empty_cli();
    cli.stream = Some(true);
    let merged = apply_config_line(cli, &b"stream = sideways".to_vec());
    assert_eq!(merged.stream, None);
}

#[test]
fn options_default_absent_flags_off() {
    let mut cli = empty_cli();
    cli.stream = Some(true);
    cli.message = Some(b"hi".to_vec());
    let opts = cli_to_options(cli);
    assert!(opts.stream);
    assert!(!opts.list);
    assert!(!opts.editor);
    assert_eq!(opts.message, Some(b"hi".to_vec()));
}

#[test]
fn shells_are_recognized_from_their_paths() {
    assert!(matches!(Shell::from_path("/bin/bash"), Shell::Bash));
    assert!(matches!(Shell::from_path("/usr/bin/ZSH"), Shell::Zsh));
    assert!(matches!(Shell::from_path("fish"), Shell::Fish));
    assert!(matches!(Shell::from_path("/bin/dash"), Shell::Other(_)));
    let fish_args = Shell::Fish.get_interactive_args();
    assert_eq!(fish_args.len(), 1);
    assert_eq!(fish_args[0], "-C");
    let bash_args = Shell::Bash.get_interactive_args();
    assert_eq!(bash_args, vec!["-i".to_string(), "-c".to_string()]);
    assert_eq!(Shell::Bash.get_rc_source_command(), ". ~/.bashrc");
}

#[test]
fn roles_parse_and_render() {
    assert!(matches!(Role::try_from("User"), Ok(Role::User)));
    assert!(matches!(Role::try_from("assistant"), Ok(Role::Assistant)));
    assert!(Role::try_from("nobody").is_err());
    assert_eq!(Role::User.to_string(), "User");
    assert_eq!(Role::Assistant.to_string(), "Assistant");
}

#[test]
fn conversation_history_renders_newest_first() {
    let messages = vec![
        Message {
            message_id: 1,
            content: b"first".to_vec(),
            role: Role::User,
            created_at: b"t1".to_vec(),
        },
        Message {
            message_id: 2,
            content: b"second".to_vec(),
            role: Role::Assistant,
            created_at: b"t2".to_vec(),
        },
    ];
    let text = String::from_utf8(get_conversation_string(&messages)).unwrap();
    assert!(text.starts_with("\n\n\n======== MESSAGE HISTORY ========\n"));
    let second_at = text.find("second").unwrap();
    let first_at = text.find("first").unwrap();
    assert!(second_at < first_at);
}

#[test]
fn outgoing_messages_map_roles_and_append_the_new_one() {
    let loaded = vec![Message {
        message_id: 1,
        content: b"old".to_vec(),
        role: Role::Assistant,
        created_at: b"t".to_vec(),
    }];
    let out = assemble_outgoing_messages(&loaded, b"new".to_vec());
    assert_eq!(out.len(), 2);
    assert!(matches!(out[0].message_type, MessageType::Assistant));
    assert_eq!(out[0].content, b"old".to_vec());
    assert!(matches!(out[1].message_type, MessageType::User));
    assert_eq!(out[1].content, b"new".to_vec());
}

#[test]
fn payload_framing_round_trips_its_length() {
    let framed = frame_payload(&b"abc".to_vec());
    assert_eq!(framed, vec![0, 0, 0, 3, b'a', b'b', b'c']);
    assert_eq!(read_be32(&framed), Some(3));
    assert_eq!(read_be32(&b"ab".to_vec()), None);
}

#[test]
fn picker_lines_select_load_operations() {
    let lines: Vec<Vec<u8>> = vec![
        b"# instructions".to_vec(),
        b"nothing 123".to_vec(),
        b"load 456".to_vec(),
        b"load 789 trailing".to_vec(),
        b"load".to_vec(),
    ];
    let ops = parse_picker_operations(&lines);
    assert_eq!(ops, vec![b"456".to_vec(), b"789".to_vec()]);
}

#[test]
fn search_box_edits_whole_characters() {
    let mut s = SearchBox::new(10);
    s.push_char('a');
    s.push_char('é');
    assert_eq!(s.content, "aé".as_bytes().to_vec());
    assert_eq!(s.cursor, 3);
    s.backspace();
    assert_eq!(s.content, b"a".to_vec());
    assert_eq!(s.cursor, 1);
    s.left();
    assert_eq!(s.cursor, 0);
    s.right();
    assert_eq!(s.cursor, 1);
}

#[test]
fn the_picker_takes_exactly_one_selection() {
    assert_eq!(pick_single_operation(vec![b"one".to_vec()]), Some(b"one".to_vec()));
    assert_eq!(pick_single_operation(vec![]), None);
    assert_eq!(pick_single_operation(vec![b"a".to_vec(), b"b".to_vec()]), None);
}
