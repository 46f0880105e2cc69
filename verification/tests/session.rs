use macro_deck::codec::encode_jpeg;
use macro_deck::error::{Error, TransportFault};
use macro_deck::macro_deck::MacroDeck;
use macro_deck::protocol::{Event, Reply, Step};
use macro_deck::raster::Image;

type Deck = MacroDeck<u32, u32>;

fn plain(width: u32, height: u32, rgba: [u8; 4]) -> Image {
    Image::filled(width, height, rgba[0], rgba[1], rgba[2], rgba[3]).unwrap()
}

fn with_pixel(image: &Image, x: u32, y: u32, rgba: [u8; 4]) -> Image {
    let mut data = image.as_raw().clone();
    let at = 4 * (y as usize * image.width() as usize + x as usize);
    data[at..at + 4].copy_from_slice(&rgba);
    Image::from_raw(image.width(), image.height(), data).unwrap()
}

fn line(text: &str) -> Event {
    Event::Line(text.as_bytes().to_vec())
}

/// Plays the device: every write is reported as written in full, and every
/// read is answered with the next of `answers`. Gives back what was written
/// and how the operation ended.
fn play(deck: &mut Deck, first: Step, answers: Vec<Event>) -> (Vec<Vec<u8>>, Result<Reply, Error>) {
    let mut written = Vec::new();
    let mut answers = answers.into_iter();
    let mut step = first;
    loop {
        step = match step {
            Step::Finished(result) => {
                assert!(answers.next().is_none());
                return (written, result);
            }
            Step::Write(bytes) => {
                let n = bytes.len();
                written.push(bytes);
                deck.resume(Event::Written(n))
            }
            Step::ReadLine => {
                let answer = answers.next().unwrap();
                assert!(matches!(answer, Event::Line(_) | Event::Failed(_)));
                deck.resume(answer)
            }
            Step::ReadExact(_) => {
                let answer = answers.next().unwrap();
                assert!(matches!(answer, Event::Payload(_) | Event::Failed(_)));
                deck.resume(answer)
            }
        };
    }
}

fn deck_with_layout(answer: &str) -> Deck {
    let mut deck = Deck::new();
    let first = deck.get_info();
    let (_, result) = play(&mut deck, first, vec![line(answer)]);
    assert!(matches!(result, Ok(Reply::Info(_))));
    deck
}

#[test]
fn info_is_asked_for_with_li() {
    let mut deck = Deck::new();
    let first = deck.get_info();
    let (written, result) = play(&mut deck, first, vec![line("2li 320 240 4 2 4\n")]);
    assert_eq!(written, vec![b"2li\n".to_vec()]);
    match result {
        Ok(Reply::Info(info)) => {
            assert_eq!(info.button_size, 77);
            assert_eq!(info.status_bar_height, 78);
        }
        other => panic!("{:?}", other),
    }
    assert!(!deck.is_busy());
}

#[test]
fn info_is_asked_for_only_once() {
    let mut deck = deck_with_layout("2li 320 240 4 2 4\n");
    match deck.get_info() {
        Step::Finished(Ok(Reply::Info(info))) => assert_eq!(info.width, 320),
        other => panic!("{:?}", other),
    }
}

#[test]
fn info_that_does_not_derive_is_a_protocol_error_and_is_not_kept() {
    let mut deck = Deck::new();
    let first = deck.get_info();
    let (_, result) = play(&mut deck, first, vec![line("2li 321 240 4 2 4\n")]);
    assert!(matches!(result, Err(Error::Protocol)));
    assert!(matches!(deck.get_info(), Step::Write(_)));
}

#[test]
fn a_line_that_is_no_frame_is_a_protocol_error() {
    let mut deck = Deck::new();
    let first = deck.get_info();
    let (_, result) = play(&mut deck, first, vec![line("garbage\n")]);
    assert!(matches!(result, Err(Error::Protocol)));
}

#[test]
fn a_short_write_ends_the_operation() {
    let mut deck = Deck::new();
    assert!(matches!(deck.get_info(), Step::Write(_)));
    assert!(matches!(
        deck.resume(Event::Written(2)),
        Step::Finished(Err(Error::Transport(TransportFault::ShortWrite)))
    ));
    assert!(!deck.is_busy());
}

#[test]
fn a_timeout_ends_the_operation_with_it() {
    let mut deck = Deck::new();
    let first = deck.get_info();
    let (_, result) = play(&mut deck, first, vec![Event::Failed(TransportFault::Timeout)]);
    assert!(matches!(result, Err(Error::Transport(TransportFault::Timeout))));
    assert!(!deck.is_busy());
}

#[test]
fn a_closed_port_ends_the_operation_with_it() {
    let mut deck = Deck::new();
    assert!(matches!(deck.set_profile(b"games"), Step::Write(_)));
    assert!(matches!(
        deck.resume(Event::Failed(TransportFault::Closed)),
        Step::Finished(Err(Error::Transport(TransportFault::Closed)))
    ));
}

#[test]
fn any_fault_of_the_port_is_handed_on() {
    for fault in [
        TransportFault::OpenFailed,
        TransportFault::ShortWrite,
        TransportFault::Timeout,
        TransportFault::Closed,
    ] {
        let mut deck = Deck::new();
        assert!(matches!(deck.list_directory(), Step::Write(_)));
        match deck.resume(Event::Failed(fault)) {
            Step::Finished(Err(Error::Transport(handed))) => assert_eq!(handed, fault),
            other => panic!("{:?}", other),
        }
    }
}

#[test]
fn an_event_from_the_device_is_never_taken_for_an_answer() {
    for event in ["2bc /0/1\n", "2sc 42\n"] {
        let mut deck = Deck::new();
        let first = deck.set_profile(b"games");
        let (_, result) = play(&mut deck, first, vec![line(event)]);
        assert!(matches!(result, Err(Error::Device)));
        let first = deck.get_info();
        let (_, result) = play(&mut deck, first, vec![line(event)]);
        assert!(matches!(result, Err(Error::Protocol)));
        let first = deck.set_icon(b"/0/0", plain(4, 4, [0, 0, 0, 255]));
        let (_, result) = play(&mut deck, first, vec![line(event)]);
        assert!(matches!(result, Err(Error::Protocol)));
        assert!(matches!(deck.get_icon(b"/0/0"), Step::Write(_)));
    }
}

#[test]
fn an_event_of_the_wrong_kind_is_an_error_of_state() {
    let mut deck = Deck::new();
    assert!(matches!(deck.get_info(), Step::Write(_)));
    assert!(matches!(deck.resume(line("2li 320 240 4 2 4\n")), Step::Finished(Err(Error::State))));
    assert!(!deck.is_busy());
}

#[test]
fn an_event_without_an_operation_is_an_error_of_state() {
    let mut deck = Deck::new();
    assert!(matches!(deck.resume(line("2ok\n")), Step::Finished(Err(Error::State))));
    assert!(matches!(deck.resume(Event::Written(3)), Step::Finished(Err(Error::State))));
}

#[test]
fn a_second_operation_is_refused_while_one_is_under_way() {
    let mut deck = Deck::new();
    assert!(matches!(deck.get_info(), Step::Write(_)));
    assert!(matches!(deck.list_directory(), Step::Finished(Err(Error::State))));
    assert!(matches!(deck.set_profile(b"x"), Step::Finished(Err(Error::State))));
    assert!(matches!(deck.get_icon(b"/0/0"), Step::Finished(Err(Error::State))));
    assert!(matches!(deck.set_icon(b"/0/0", plain(2, 2, [0, 0, 0, 255])), Step::Finished(Err(Error::State))));
    assert!(matches!(deck.set_status(plain(2, 2, [0, 0, 0, 255])), Step::Finished(Err(Error::State))));
    assert!(deck.is_busy());
    assert!(matches!(deck.resume(Event::Written(4)), Step::ReadLine));
    assert!(matches!(deck.resume(line("2li 320 240 4 2 4\n")), Step::Finished(Ok(Reply::Info(_)))));
}

#[test]
fn set_icon_announces_sends_and_waits_for_ok() {
    let mut deck = Deck::new();
    let icon = plain(64, 64, [255, 0, 0, 255]);
    let file = encode_jpeg(&icon).unwrap();
    let first = deck.set_icon(b"/0/0", icon.duplicate());
    let (written, result) = play(&mut deck, first, vec![line("2rd\n"), line("2ok\n")]);
    assert!(matches!(result, Ok(Reply::Done)));
    assert_eq!(written.len(), 2);
    assert_eq!(written[0], format!("2wi /0/0 {}\n", file.len()).into_bytes());
    assert_eq!(written[1], file);
}

#[test]
fn a_written_icon_is_served_from_the_cache() {
    let mut deck = Deck::new();
    let icon = plain(64, 64, [255, 0, 0, 255]);
    let first = deck.set_icon(b"/0/0", icon.duplicate());
    let (_, result) = play(&mut deck, first, vec![line("2rd\n"), line("2ok\n")]);
    assert!(matches!(result, Ok(Reply::Done)));
    match deck.get_icon(b"/0/0") {
        Step::Finished(Ok(Reply::Icon(cached))) => {
            assert_eq!((cached.width(), cached.height()), (64, 64));
            assert_eq!(cached.as_raw(), icon.as_raw());
        }
        other => panic!("{:?}", other),
    }
}

#[test]
fn an_icon_is_cached_only_after_the_last_ok() {
    let mut deck = Deck::new();
    let first = deck.set_icon(b"/0/0", plain(8, 8, [255, 0, 0, 255]));
    let (_, result) = play(&mut deck, first, vec![line("2rd\n"), line("2no\n")]);
    assert!(matches!(result, Err(Error::Device)));
    assert!(matches!(deck.get_icon(b"/0/0"), Step::Write(_)));
}

#[test]
fn an_icon_that_the_device_is_not_ready_for_is_a_protocol_error() {
    let mut deck = Deck::new();
    let first = deck.set_icon(b"/0/0", plain(8, 8, [255, 0, 0, 255]));
    let (written, result) = play(&mut deck, first, vec![line("2ok\n")]);
    assert!(matches!(result, Err(Error::Protocol)));
    assert_eq!(written.len(), 1);
}

#[test]
fn an_icon_that_cannot_be_encoded_is_an_image_error() {
    let mut deck = Deck::new();
    let empty = Image::from_raw(0, 0, vec![]).unwrap();
    assert!(matches!(deck.set_icon(b"/0/0", empty), Step::Finished(Err(Error::Image))));
    assert!(!deck.is_busy());
}

#[test]
fn a_later_icon_takes_the_place_of_an_earlier_one() {
    let mut deck = Deck::new();
    for colour in [[255, 0, 0, 255], [0, 255, 0, 255]] {
        let first = deck.set_icon(b"/0/0", plain(8, 8, colour));
        let (_, result) = play(&mut deck, first, vec![line("2rd\n"), line("2ok\n")]);
        assert!(matches!(result, Ok(Reply::Done)));
    }
    match deck.get_icon(b"/0/0") {
        Step::Finished(Ok(Reply::Icon(cached))) => assert_eq!(cached.get_pixel(0, 0), Some((0, 255, 0, 255))),
        other => panic!("{:?}", other),
    }
}

#[test]
fn get_icon_asks_confirms_reads_and_caches() {
    let mut deck = Deck::new();
    let file = encode_jpeg(&plain(16, 16, [0, 0, 255, 255])).unwrap();
    let first = deck.get_icon(b"/1/2");
    let mut step = first;
    let mut written = Vec::new();
    let mut asked = None;
    let mut answers = vec![line(&format!("3rd? {}\n", file.len())), Event::Payload(file.clone())].into_iter();
    let result = loop {
        step = match step {
            Step::Finished(result) => break result,
            Step::Write(bytes) => {
                let n = bytes.len();
                written.push(bytes);
                deck.resume(Event::Written(n))
            }
            Step::ReadLine => deck.resume(answers.next().unwrap()),
            Step::ReadExact(n) => {
                asked = Some(n);
                deck.resume(answers.next().unwrap())
            }
        };
    };
    assert_eq!(written, vec![b"2ri /1/2\n".to_vec(), b"2rd\n".to_vec()]);
    assert_eq!(asked, Some(file.len() as u32));
    match result {
        Ok(Reply::Icon(icon)) => assert_eq!((icon.width(), icon.height()), (16, 16)),
        other => panic!("{:?}", other),
    }
    assert!(matches!(deck.get_icon(b"/1/2"), Step::Finished(Ok(Reply::Icon(_)))));
}

#[test]
fn get_icon_with_a_size_that_is_no_number_is_a_protocol_error() {
    let mut deck = Deck::new();
    let first = deck.get_icon(b"/1/2");
    let (_, result) = play(&mut deck, first, vec![line("3rd? many\n")]);
    assert!(matches!(result, Err(Error::Protocol)));
}

#[test]
fn get_icon_with_bytes_that_are_no_image_is_an_image_error() {
    let mut deck = Deck::new();
    let first = deck.get_icon(b"/1/2");
    let (_, result) = play(&mut deck, first, vec![line("3rd? 4\n"), Event::Payload(vec![1, 2, 3, 4])]);
    assert!(matches!(result, Err(Error::Image)));
    assert!(matches!(deck.get_icon(b"/1/2"), Step::Write(_)));
}

#[test]
fn resume_with_takes_the_image_that_the_decoder_made() {
    let mut deck = Deck::new();
    assert!(matches!(deck.get_icon(b"/9"), Step::Write(_)));
    assert!(matches!(deck.resume(Event::Written(7)), Step::ReadLine));
    assert!(matches!(deck.resume(line("3rd? 3\n")), Step::Write(_)));
    assert!(matches!(deck.resume(Event::Written(4)), Step::ReadExact(3)));
    let made = plain(2, 2, [7, 7, 7, 255]);
    match deck.resume_with(Event::Payload(vec![0, 0, 0]), Some(made.duplicate())) {
        Step::Finished(Ok(Reply::Icon(icon))) => assert_eq!(icon.as_raw(), made.as_raw()),
        other => panic!("{:?}", other),
    }
}

#[test]
fn status_before_any_was_set_is_an_error_of_state() {
    let deck = Deck::new();
    assert!(matches!(deck.get_status(), Err(Error::State)));
}

#[test]
fn the_first_status_is_sent_whole() {
    let mut deck = deck_with_layout("2li 100 110 1 1 0\n");
    let image = plain(100, 10, [0, 0, 0, 255]);
    let file = encode_jpeg(&image).unwrap();
    let first = deck.set_status(image.duplicate());
    let (written, result) = play(&mut deck, first, vec![line("2rd\n"), line("2ok\n")]);
    assert!(matches!(result, Ok(Reply::Done)));
    assert_eq!(written[0], format!("2ss 0 0 {}\n", file.len()).into_bytes());
    assert_eq!(written[1], file);
    assert_eq!(deck.get_status().unwrap().as_raw(), image.as_raw());
}

#[test]
fn a_changed_pixel_is_sent_as_a_patch_of_one_pixel() {
    let mut deck = deck_with_layout("2li 100 110 1 1 0\n");
    let black = plain(100, 10, [0, 0, 0, 255]);
    let first = deck.set_status(black.duplicate());
    let (_, result) = play(&mut deck, first, vec![line("2rd\n"), line("2ok\n")]);
    assert!(matches!(result, Ok(Reply::Done)));
    let next = with_pixel(&black, 7, 3, [255, 255, 255, 255]);
    let patch = encode_jpeg(&plain(1, 1, [255, 255, 255, 255])).unwrap();
    let first = deck.set_status(next.duplicate());
    let (written, result) = play(&mut deck, first, vec![line("2rd\n"), line("2ok\n")]);
    assert!(matches!(result, Ok(Reply::Done)));
    assert_eq!(written.len(), 2);
    assert_eq!(written[0], format!("2ss 7 3 {}\n", patch.len()).into_bytes());
    assert_eq!(written[1], patch);
    let sent = macro_deck::codec::decode_image(&written[1]).unwrap();
    assert_eq!((sent.width(), sent.height()), (1, 1));
    assert_eq!(deck.get_status().unwrap().as_raw(), next.as_raw());
}

#[test]
fn the_same_status_twice_is_sent_once() {
    let mut deck = deck_with_layout("2li 100 110 1 1 0\n");
    let image = with_pixel(&plain(100, 10, [0, 0, 0, 255]), 50, 5, [9, 9, 9, 255]);
    let first = deck.set_status(image.duplicate());
    let (written, result) = play(&mut deck, first, vec![line("2rd\n"), line("2ok\n")]);
    assert!(matches!(result, Ok(Reply::Done)));
    assert_eq!(written.len(), 2);
    assert!(matches!(deck.set_status(image.duplicate()), Step::Finished(Ok(Reply::Done))));
    assert!(!deck.is_busy());
}

#[test]
fn a_status_of_the_wrong_size_is_an_image_error() {
    let mut deck = deck_with_layout("2li 100 110 1 1 0\n");
    assert!(matches!(deck.set_status(plain(100, 11, [0, 0, 0, 255])), Step::Finished(Err(Error::Image))));
    assert!(matches!(deck.set_status(plain(99, 10, [0, 0, 0, 255])), Step::Finished(Err(Error::Image))));
    assert!(matches!(deck.get_status(), Err(Error::State)));
}

#[test]
fn a_status_counts_as_shown_only_after_ok() {
    let mut deck = deck_with_layout("2li 100 110 1 1 0\n");
    let image = plain(100, 10, [0, 0, 0, 255]);
    let first = deck.set_status(image.duplicate());
    let (_, result) = play(&mut deck, first, vec![line("2rd\n"), line("2er\n")]);
    assert!(matches!(result, Err(Error::Device)));
    assert!(matches!(deck.get_status(), Err(Error::State)));
    let first = deck.set_status(image.duplicate());
    let (written, _) = play(&mut deck, first, vec![line("2rd\n"), line("2ok\n")]);
    assert_eq!(written.len(), 2);
}

#[test]
fn a_status_without_a_known_layout_asks_for_the_layout_first() {
    let mut deck = Deck::new();
    let image = plain(100, 10, [0, 0, 0, 255]);
    let first = deck.set_status(image.duplicate());
    let (written, result) = play(
        &mut deck,
        first,
        vec![line("2li 100 110 1 1 0\n"), line("2rd\n"), line("2ok\n")],
    );
    assert!(matches!(result, Ok(Reply::Done)));
    assert_eq!(written.len(), 3);
    assert_eq!(written[0], b"2li\n".to_vec());
    assert!(written[1].starts_with(b"2ss 0 0 "));
    assert!(matches!(deck.get_info(), Step::Finished(Ok(Reply::Info(_)))));
}

#[test]
fn directories_are_asked_for_once_and_then_kept() {
    let mut deck = Deck::new();
    let first = deck.list_directory();
    let (written, result) = play(&mut deck, first, vec![line("2ld /a /a/b /c\n")]);
    assert_eq!(written, vec![b"2ld\n".to_vec()]);
    match result {
        Ok(Reply::Directories(dirs)) => assert_eq!(dirs, vec![b"/a".to_vec(), b"/a/b".to_vec(), b"/c".to_vec()]),
        other => panic!("{:?}", other),
    }
    match deck.list_directory() {
        Step::Finished(Ok(Reply::Directories(dirs))) => assert_eq!(dirs.len(), 3),
        other => panic!("{:?}", other),
    }
}

fn directories(deck: &mut Deck) -> Vec<Vec<u8>> {
    match deck.list_directory() {
        Step::Finished(Ok(Reply::Directories(dirs))) => dirs,
        other => panic!("{:?}", other),
    }
}

fn deck_with_directories(answer: &str) -> Deck {
    let mut deck = Deck::new();
    let first = deck.list_directory();
    let (_, result) = play(&mut deck, first, vec![line(answer)]);
    assert!(matches!(result, Ok(Reply::Directories(_))));
    deck
}

#[test]
fn a_removed_folder_leaves_nothing_below_it_in_the_index() {
    let mut deck = deck_with_directories("2ld /a /a/b /ab /c\n");
    let first = deck.remove_folder(b"/a");
    let (written, result) = play(&mut deck, first, vec![line("2ok\n")]);
    assert_eq!(written, vec![b"2df /a\n".to_vec()]);
    assert!(matches!(result, Ok(Reply::Done)));
    assert_eq!(directories(&mut deck), vec![b"/ab".to_vec(), b"/c".to_vec()]);
}

#[test]
fn a_removed_icon_is_pruned_from_the_index() {
    let mut deck = deck_with_directories("2ld /a /a/1 /a/10\n");
    let first = deck.remove_icon(b"/a/1");
    let (written, result) = play(&mut deck, first, vec![line("2ok\n")]);
    assert_eq!(written, vec![b"2di /a/1\n".to_vec()]);
    assert!(matches!(result, Ok(Reply::Done)));
    assert_eq!(directories(&mut deck), vec![b"/a".to_vec(), b"/a/10".to_vec()]);
}

#[test]
fn a_removal_that_the_device_refuses_leaves_the_index_alone() {
    let mut deck = deck_with_directories("2ld /a /a/b\n");
    let first = deck.remove_folder(b"/a");
    let (_, result) = play(&mut deck, first, vec![line("2no\n")]);
    assert!(matches!(result, Err(Error::Device)));
    assert_eq!(directories(&mut deck).len(), 2);
}

#[test]
fn a_created_folder_is_added_with_the_directories_above_it() {
    let mut deck = deck_with_directories("2ld /a\n");
    let first = deck.create_folder(b"/a/b/c");
    let (written, result) = play(&mut deck, first, vec![line("2ok\n")]);
    assert_eq!(written, vec![b"2cf /a/b/c\n".to_vec()]);
    assert!(matches!(result, Ok(Reply::Done)));
    assert_eq!(directories(&mut deck), vec![b"/a".to_vec(), b"/a/b/c".to_vec(), b"/a/b".to_vec()]);
}

#[test]
fn a_written_icon_is_added_to_the_index() {
    let mut deck = deck_with_directories("2ld\n");
    let first = deck.set_icon(b"/p/aio.jpg", plain(8, 8, [1, 1, 1, 255]));
    let (_, result) = play(&mut deck, first, vec![line("2rd\n"), line("2ok\n")]);
    assert!(matches!(result, Ok(Reply::Done)));
    assert_eq!(directories(&mut deck), vec![b"/p".to_vec()]);
}

#[test]
fn a_written_icon_brings_only_the_directories_above_it() {
    let mut deck = deck_with_directories("2ld /x /a\n");
    let first = deck.set_icon(b"/a/b/c.jpg", plain(8, 8, [1, 1, 1, 255]));
    let (_, result) = play(&mut deck, first, vec![line("2rd\n"), line("2ok\n")]);
    assert!(matches!(result, Ok(Reply::Done)));
    assert_eq!(directories(&mut deck), vec![b"/x".to_vec(), b"/a".to_vec(), b"/a/b".to_vec()]);
    let first = deck.set_icon(b"/top.jpg", plain(8, 8, [1, 1, 1, 255]));
    let (_, result) = play(&mut deck, first, vec![line("2rd\n"), line("2ok\n")]);
    assert!(matches!(result, Ok(Reply::Done)));
    assert_eq!(directories(&mut deck).len(), 3);
}

#[test]
fn an_index_that_was_never_asked_for_stays_unknown() {
    let mut deck = Deck::new();
    let first = deck.create_folder(b"/a");
    let (_, result) = play(&mut deck, first, vec![line("2ok\n")]);
    assert!(matches!(result, Ok(Reply::Done)));
    assert!(matches!(deck.list_directory(), Step::Write(_)));
}

#[test]
fn set_profile_sends_sp_and_waits_for_ok() {
    let mut deck = Deck::new();
    let first = deck.set_profile(b"games");
    let (written, result) = play(&mut deck, first, vec![line("2ok\n")]);
    assert_eq!(written, vec![b"2sp games\n".to_vec()]);
    assert!(matches!(result, Ok(Reply::Done)));
}

#[test]
fn an_answer_other_than_ok_is_a_device_error() {
    let mut deck = Deck::new();
    let first = deck.set_profile(b"games");
    let (_, result) = play(&mut deck, first, vec![line("2rd\n")]);
    assert!(matches!(result, Err(Error::Device)));
}

#[test]
fn a_listing_with_another_tag_is_a_protocol_error() {
    let mut deck = Deck::new();
    let first = deck.list_directory();
    let (_, result) = play(&mut deck, first, vec![line("2ok\n")]);
    assert!(matches!(result, Err(Error::Protocol)));
}
