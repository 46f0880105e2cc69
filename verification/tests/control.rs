use macro_deck::control::{
    action, button_actions, config_file, decode_status, interpret_command, interpret_status_command,
    keeps_accepting, line_step, listen_address, reads_on, LineRead, LineStep, next_after_flash, next_after_line, next_step, push_status,
    work_after_line, Work, same_text, status_canvas, status_producer, Command, Next,
    Payload, StatusCommand, MAX_TRIES,
};
use macro_deck::codec::encode_base64;
use macro_deck::device::DeviceInfo;
use macro_deck::error::{Error, TransportFault};
use macro_deck::macro_deck::MacroDeck;
use macro_deck::models::{ButtonConfig, Config};
use macro_deck::protocol::{Event, Reply, Step};
use macro_deck::raster::Image;

type Deck = MacroDeck<u32, u32>;

fn plain(width: u32, height: u32, rgba: [u8; 4]) -> Image {
    Image::filled(width, height, rgba[0], rgba[1], rgba[2], rgba[3]).unwrap()
}

fn line(text: &str) -> Event {
    Event::Line(text.as_bytes().to_vec())
}

fn deck_with_layout(answer: &str) -> Deck {
    let mut deck = Deck::new();
    assert!(matches!(deck.get_info(), Step::Write(_)));
    assert!(matches!(deck.resume(Event::Written(4)), Step::ReadLine));
    assert!(matches!(deck.resume(line(answer)), Step::Finished(Ok(Reply::Info(_)))));
    deck
}

#[test]
fn texts_are_compared_in_full() {
    assert!(same_text("stop", "stop"));
    assert!(!same_text("stop", "stopp"));
    assert!(!same_text("stop", "Stop"));
    assert!(same_text("", ""));
}

#[test]
fn stop_stops_the_server() {
    let command = interpret_command("stop", Payload::Absent);
    assert!(matches!(command, Command::Stop));
    assert_eq!(next_step(&command), Next::Shutdown);
}

#[test]
fn flash_without_a_value_uses_the_configuration_in_use() {
    let command = interpret_command("flash", Payload::Absent);
    assert!(matches!(command, Command::Flash(None)));
    assert_eq!(next_step(&command), Next::Close);
}

#[test]
fn flash_with_a_path_names_the_configuration() {
    match interpret_command("flash", Payload::Text("other.json".to_string())) {
        Command::Flash(Some(path)) => assert_eq!(path, "other.json"),
        other => panic!("{:?}", other),
    }
}

#[test]
fn flash_with_a_value_that_is_no_path_is_passed_over() {
    let command = interpret_command("flash", Payload::Other);
    assert!(matches!(command, Command::Invalid));
    assert_eq!(next_step(&command), Next::Continue);
}

#[test]
fn a_flash_without_its_configuration_is_passed_over() {
    assert_eq!(next_after_flash(true), Next::Close);
    assert_eq!(next_after_flash(false), Next::Continue);
}

#[test]
fn a_bad_line_is_passed_over_and_a_failed_read_ends_the_reading() {
    assert_eq!(line_step(LineRead::Frame), LineStep::Interpret);
    assert_eq!(line_step(LineRead::Unparsable), LineStep::Skip);
    assert_eq!(line_step(LineRead::Failed), LineStep::End);
    assert!(reads_on(LineRead::Frame));
    assert!(reads_on(LineRead::Unparsable));
    assert!(!reads_on(LineRead::Failed));
}

#[test]
fn a_stop_ends_the_server_without_work_on_the_device() {
    let command = interpret_command("stop", Payload::Absent);
    assert_eq!(next_after_line(&command, false), Next::Shutdown);
    assert_eq!(work_after_line(&command, false), Work::Nothing);
    assert!(!keeps_accepting(Next::Shutdown));
    assert!(keeps_accepting(Next::Close));
    assert!(keeps_accepting(Next::Continue));
    assert!(keeps_accepting(Next::Upgrade));
}

#[test]
fn a_line_gives_the_server_its_work() {
    let flash = interpret_command("flash", Payload::Absent);
    assert_eq!(next_after_line(&flash, true), Next::Close);
    assert_eq!(work_after_line(&flash, true), Work::Flash);
    assert_eq!(next_after_line(&flash, false), Next::Continue);
    assert_eq!(work_after_line(&flash, false), Work::Nothing);
    let upgrade = interpret_command("setStatusHandler", Payload::Absent);
    assert_eq!(next_after_line(&upgrade, false), Next::Upgrade);
    assert_eq!(work_after_line(&upgrade, false), Work::Layout);
    let unknown = interpret_command("hello", Payload::Absent);
    assert_eq!(next_after_line(&unknown, true), Next::Continue);
    assert_eq!(work_after_line(&unknown, true), Work::Nothing);
}

#[test]
fn set_status_handler_upgrades_the_connection() {
    let command = interpret_command("setStatusHandler", Payload::Other);
    assert!(matches!(command, Command::SetStatusHandler));
    assert_eq!(next_step(&command), Next::Upgrade);
}

#[test]
fn any_other_message_is_passed_over() {
    let command = interpret_command("setStatus", Payload::Text("x".to_string()));
    assert!(matches!(command, Command::Unknown));
    assert_eq!(next_step(&command), Next::Continue);
    assert!(matches!(interpret_command("", Payload::Absent), Command::Unknown));
}

#[test]
fn a_push_carries_the_image_as_text() {
    match interpret_status_command("setStatus", Payload::Text("aGk=".to_string())) {
        StatusCommand::Push(text) => assert_eq!(text, "aGk="),
        other => panic!("{:?}", other),
    }
}

#[test]
fn a_push_without_text_is_told_apart() {
    assert!(matches!(interpret_status_command("setStatus", Payload::Absent), StatusCommand::Missing));
    assert!(matches!(interpret_status_command("setStatus", Payload::Other), StatusCommand::Invalid));
    assert!(matches!(interpret_status_command("stop", Payload::Absent), StatusCommand::Unknown));
}

#[test]
fn a_new_status_channel_is_told_the_size_of_the_bar() {
    let info = DeviceInfo::derive(320, 240, 4, 2, 4).unwrap();
    assert_eq!(status_canvas(&info), (320, 78));
}

#[test]
fn the_server_listens_on_the_local_host() {
    assert_eq!(listen_address(&None), "127.0.0.1:8964");
    assert_eq!(listen_address(&Some("9000".to_string())), "127.0.0.1:9000");
}

#[test]
fn the_configuration_is_config_json_unless_named() {
    assert_eq!(config_file(&None), "config.json");
    assert_eq!(config_file(&Some("deck.json".to_string())), "deck.json");
}

#[test]
fn a_button_runs_its_command_with_its_arguments() {
    let with_args = ButtonConfig {
        command: Some("open".to_string()),
        args: Some(vec!["-a".to_string(), "Mail".to_string()]),
        icon: None,
    };
    let a = action(&with_args).unwrap();
    assert_eq!(a.command, "open");
    assert_eq!(a.args, vec!["-a".to_string(), "Mail".to_string()]);
    let bare = ButtonConfig { command: Some("date".to_string()), args: None, icon: None };
    let a = action(&bare).unwrap();
    assert_eq!(a.command, "date");
    assert!(a.args.is_empty());
    let none = ButtonConfig { command: None, args: Some(vec!["x".to_string()]), icon: None };
    assert!(action(&none).is_none());
}

#[test]
fn handlers_are_registered_for_the_buttons_with_a_command() {
    let config = Config {
        buttons: Some(vec![
            ("/0/0".to_string(), ButtonConfig { command: Some("a".to_string()), args: None, icon: None }),
            ("/0/1".to_string(), ButtonConfig { command: None, args: None, icon: Some("x".to_string()) }),
            (
                "/0/2".to_string(),
                ButtonConfig { command: Some("b".to_string()), args: Some(vec!["1".to_string()]), icon: None },
            ),
        ]),
        status: None,
    };
    let actions = button_actions(&config);
    assert_eq!(actions.len(), 2);
    assert_eq!(actions[0].0, "/0/0");
    assert_eq!(actions[0].1.command, "a");
    assert_eq!(actions[1].0, "/0/2");
    assert_eq!(actions[1].1.args, vec!["1".to_string()]);
    assert!(button_actions(&Config { buttons: None, status: None }).is_empty());
}

#[test]
fn the_status_producer_is_the_command_of_the_status_bar() {
    let config = Config {
        buttons: None,
        status: Some(ButtonConfig { command: Some("clock".to_string()), args: None, icon: None }),
    };
    assert_eq!(status_producer(&config).unwrap().command, "clock");
    assert!(status_producer(&Config { buttons: None, status: None }).is_none());
    let idle = Config { buttons: None, status: Some(ButtonConfig { command: None, args: None, icon: None }) };
    assert!(status_producer(&idle).is_none());
}

#[test]
fn a_status_image_is_decoded_from_its_text() {
    let buffer = image::RgbaImage::from_raw(3, 2, plain(3, 2, [5, 6, 7, 255]).as_raw().clone()).unwrap();
    let mut file = Vec::new();
    image::DynamicImage::ImageRgba8(buffer)
        .write_to(&mut std::io::Cursor::new(&mut file), image::ImageFormat::Png)
        .unwrap();
    let image = decode_status(&encode_base64(&file).unwrap()).unwrap();
    assert_eq!((image.width(), image.height()), (3, 2));
    assert_eq!(image.get_pixel(2, 1), Some((5, 6, 7, 255)));
    assert!(matches!(decode_status(&"***".to_string()), Err(Error::Image)));
    assert!(matches!(decode_status(&"aGk=".to_string()), Err(Error::Image)));
}

#[test]
fn a_push_that_succeeds_is_over_after_one_try() {
    let mut deck = deck_with_layout("2li 100 110 1 1 0\n");
    let (mut push, first) = push_status(&mut deck, plain(100, 10, [0, 0, 0, 255]));
    assert!(matches!(first, Step::Write(_)));
    let len = match first {
        Step::Write(bytes) => bytes.len(),
        _ => 0,
    };
    assert!(matches!(push.resume(&mut deck, Event::Written(len)), Step::ReadLine));
    let payload = match push.resume(&mut deck, line("2rd\n")) {
        Step::Write(bytes) => bytes.len(),
        other => panic!("{:?}", other),
    };
    assert!(matches!(push.resume(&mut deck, Event::Written(payload)), Step::ReadLine));
    assert!(matches!(push.resume(&mut deck, line("2ok\n")), Step::Finished(Ok(Reply::Done))));
    assert!(push.is_over());
    assert_eq!(push.failures(), 0);
    assert!(deck.get_status().is_ok());
}

#[test]
fn a_push_is_tried_five_times_and_then_given_up() {
    assert_eq!(MAX_TRIES, 5);
    let mut deck = deck_with_layout("2li 100 110 1 1 0\n");
    let (mut push, first) = push_status(&mut deck, plain(100, 10, [0, 0, 0, 255]));
    let mut step = first;
    let mut announced = 0;
    let result = loop {
        step = match step {
            Step::Finished(result) => break result,
            Step::Write(bytes) => {
                assert!(bytes.starts_with(b"2ss 0 0 "));
                announced += 1;
                push.resume(&mut deck, Event::Written(bytes.len()))
            }
            Step::ReadLine => push.resume(&mut deck, Event::Failed(TransportFault::Timeout)),
            Step::ReadExact(_) => panic!(),
        };
    };
    assert!(matches!(result, Err(Error::Transport(TransportFault::Timeout))));
    assert_eq!(announced, 5);
    assert_eq!(push.failures(), 5);
    assert!(push.is_over());
    assert!(matches!(push.resume(&mut deck, line("2ok\n")), Step::Finished(Err(Error::State))));
}

#[test]
fn a_push_that_can_never_begin_is_given_up_after_five_tries() {
    let mut deck = deck_with_layout("2li 100 110 1 1 0\n");
    let (push, first) = push_status(&mut deck, plain(10, 10, [0, 0, 0, 255]));
    assert!(matches!(first, Step::Finished(Err(Error::Image))));
    assert_eq!(push.failures(), 5);
    assert!(push.is_over());
}

#[test]
fn a_push_goes_through_after_tries_that_failed() {
    let mut deck = deck_with_layout("2li 100 110 1 1 0\n");
    let (mut push, first) = push_status(&mut deck, plain(100, 10, [0, 0, 0, 255]));
    let mut answers = vec![
        line("2no\n"),
        Event::Failed(TransportFault::Timeout),
        line("2rd\n"),
        line("2ok\n"),
    ]
    .into_iter();
    let mut step = first;
    let result = loop {
        step = match step {
            Step::Finished(result) => break result,
            Step::Write(bytes) => push.resume(&mut deck, Event::Written(bytes.len())),
            Step::ReadLine => push.resume(&mut deck, answers.next().unwrap()),
            Step::ReadExact(_) => panic!(),
        };
    };
    assert!(matches!(result, Ok(Reply::Done)));
    assert_eq!(push.failures(), 2);
    assert!(deck.get_status().is_ok());
}
