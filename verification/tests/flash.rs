use macro_deck::codec::{decode_image, encode_base64, encode_jpeg};
use macro_deck::device::DeviceInfo;
use macro_deck::error::{Error, TransportFault};
use macro_deck::flash::{
    cell_of, compose, find_last_slash, flash_device, list_directories, place_buttons, plan_uploads, render,
    Flash, Placed,
};
use macro_deck::macro_deck::MacroDeck;
use macro_deck::models::{ButtonConfig, Config};
use macro_deck::protocol::{Event, Reply, Step};
use macro_deck::raster::Image;

type Deck = MacroDeck<u32, u32>;

fn plain(width: u32, height: u32, rgba: [u8; 4]) -> Image {
    Image::filled(width, height, rgba[0], rgba[1], rgba[2], rgba[3]).unwrap()
}

fn png_text(image: &Image) -> String {
    let buffer = image::RgbaImage::from_raw(image.width(), image.height(), image.as_raw().clone()).unwrap();
    let mut file = Vec::new();
    image::DynamicImage::ImageRgba8(buffer)
        .write_to(&mut std::io::Cursor::new(&mut file), image::ImageFormat::Png)
        .unwrap();
    encode_base64(&file).unwrap()
}

fn button(icon: Option<String>) -> ButtonConfig {
    ButtonConfig { command: None, args: None, icon }
}

fn config(buttons: Vec<(&str, Option<String>)>) -> Config {
    Config {
        buttons: Some(buttons.into_iter().map(|(path, icon)| (path.to_string(), button(icon))).collect()),
        status: None,
    }
}

fn line(text: &str) -> Event {
    Event::Line(text.as_bytes().to_vec())
}

fn layout() -> DeviceInfo {
    DeviceInfo::derive(320, 240, 4, 2, 4).unwrap()
}

fn deck_with_layout() -> Deck {
    let mut deck = Deck::new();
    assert!(matches!(deck.get_info(), Step::Write(_)));
    assert!(matches!(deck.resume(Event::Written(4)), Step::ReadLine));
    assert!(matches!(deck.resume(line("2li 320 240 4 2 4\n")), Step::Finished(Ok(Reply::Info(_)))));
    deck
}

/// Plays the device for a flash: every write is written in full, every read
/// is answered with the next of `answers`.
fn play(
    deck: &mut Deck,
    flash: &mut Flash,
    first: Step,
    answers: Vec<Event>,
) -> (Vec<Vec<u8>>, Result<Reply, Error>) {
    let mut written = Vec::new();
    let mut answers = answers.into_iter();
    let mut step = first;
    loop {
        step = match step {
            Step::Finished(result) => {
                assert!(answers.next().is_none());
                return (written, result);
            }
            Step::Write(bytes) => {
                let n = bytes.len();
                written.push(bytes);
                flash.resume(deck, Event::Written(n))
            }
            Step::ReadLine | Step::ReadExact(_) => flash.resume(deck, answers.next().unwrap()),
        };
    }
}

#[test]
fn the_last_slash_is_found() {
    assert_eq!(find_last_slash(b"/p/0"), Some(2));
    assert_eq!(find_last_slash(b"/0"), Some(0));
    assert_eq!(find_last_slash(b"0"), None);
    assert_eq!(find_last_slash(b""), None);
}

#[test]
fn buttons_are_placed_by_directory_and_position() {
    let cfg = config(vec![
        ("/p/0", Some("AAAA".to_string())),
        ("/p/q/12", Some("BBBB".to_string())),
        ("/3", Some("CCCC".to_string())),
        ("7", Some("DDDD".to_string())),
    ]);
    let placed = place_buttons(&cfg);
    let seen: Vec<(Vec<u8>, u32, Vec<u8>)> =
        placed.into_iter().map(|p| (p.dir, p.index, p.icon)).collect();
    assert_eq!(
        seen,
        vec![
            (b"/p".to_vec(), 0, b"AAAA".to_vec()),
            (b"/p/q".to_vec(), 12, b"BBBB".to_vec()),
            (b"/".to_vec(), 3, b"CCCC".to_vec()),
            (b"".to_vec(), 7, b"DDDD".to_vec()),
        ]
    );
}

#[test]
fn buttons_without_icon_or_position_are_passed_over() {
    let cfg = config(vec![
        ("/p/0", None),
        ("/p/x", Some("AAAA".to_string())),
        ("/p/", Some("AAAA".to_string())),
        ("/p/-1", Some("AAAA".to_string())),
        ("/p/4294967296", Some("AAAA".to_string())),
        ("/p/1", Some("BBBB".to_string())),
    ]);
    let placed = place_buttons(&cfg);
    assert_eq!(placed.len(), 1);
    assert_eq!(placed[0].index, 1);
    assert_eq!(placed[0].icon, b"BBBB".to_vec());
}

#[test]
fn a_configuration_without_buttons_places_none() {
    assert!(place_buttons(&Config { buttons: None, status: None }).is_empty());
    assert!(place_buttons(&config(vec![])).is_empty());
}

#[test]
fn directories_are_listed_once_in_order_of_first_use() {
    let cfg = config(vec![
        ("/b/0", Some("A".to_string())),
        ("/a/0", Some("A".to_string())),
        ("/b/1", Some("A".to_string())),
        ("/a/b/0", Some("A".to_string())),
    ]);
    let dirs = list_directories(&place_buttons(&cfg));
    assert_eq!(dirs, vec![b"/b".to_vec(), b"/a".to_vec(), b"/a/b".to_vec()]);
}

#[test]
fn cells_run_along_the_rows() {
    let info = layout();
    assert_eq!(cell_of(&info, 0), Some((0, 0)));
    assert_eq!(cell_of(&info, 1), Some((81, 0)));
    assert_eq!(cell_of(&info, 3), Some((243, 0)));
    assert_eq!(cell_of(&info, 4), Some((0, 81)));
    assert_eq!(cell_of(&info, 7), Some((243, 81)));
    assert_eq!(cell_of(&info, 8), Some((0, 162)));
}

#[test]
fn a_cell_beyond_32_bits_is_none() {
    let info = DeviceInfo::derive(4294967295, 4294967295, 1, 1, 0).unwrap();
    assert_eq!(cell_of(&info, 0), Some((0, 0)));
    assert_eq!(cell_of(&info, 1), Some((0, 4294967295)));
    assert_eq!(cell_of(&info, 2), None);
}

#[test]
fn an_icon_is_rendered_to_the_size_of_a_button() {
    let tile = render(png_text(&plain(10, 20, [200, 0, 0, 255])).as_bytes(), 77).unwrap();
    assert_eq!((tile.width(), tile.height()), (77, 77));
    let (r, g, b, _) = tile.get_pixel(38, 38).unwrap();
    assert!(r > 190 && g < 10 && b < 10);
}

#[test]
fn an_icon_that_is_no_base64_or_no_image_is_not_rendered() {
    assert!(render(b"***", 77).is_none());
    assert!(render(encode_base64(b"no image").unwrap().as_bytes(), 77).is_none());
}

#[test]
fn tiles_are_laid_at_their_cells_and_the_rest_stays_black() {
    let info = layout();
    let red = plain(77, 77, [255, 0, 0, 255]);
    let blue = plain(77, 77, [0, 0, 255, 128]);
    let placed = vec![
        Placed { dir: b"/p".to_vec(), index: 0, icon: vec![] },
        Placed { dir: b"/p".to_vec(), index: 1, icon: vec![] },
        Placed { dir: b"/q".to_vec(), index: 5, icon: vec![] },
    ];
    let tiles = vec![Some(red), Some(blue), Some(plain(77, 77, [0, 255, 0, 255]))];
    let canvas = plain(320, 158, [0, 0, 0, 255]);
    let picture = compose(canvas, &info, b"/p", &placed, &tiles);
    assert_eq!((picture.width(), picture.height()), (320, 158));
    assert_eq!(picture.get_pixel(0, 0), Some((255, 0, 0, 255)));
    assert_eq!(picture.get_pixel(76, 76), Some((255, 0, 0, 255)));
    assert_eq!(picture.get_pixel(77, 0), Some((0, 0, 0, 255)));
    assert_eq!(picture.get_pixel(80, 0), Some((0, 0, 0, 255)));
    assert_eq!(picture.get_pixel(81, 0), Some((0, 0, 255, 255)));
    assert_eq!(picture.get_pixel(157, 76), Some((0, 0, 255, 255)));
    assert_eq!(picture.get_pixel(158, 0), Some((0, 0, 0, 255)));
    assert_eq!(picture.get_pixel(0, 77), Some((0, 0, 0, 255)));
    assert_eq!(picture.get_pixel(81, 81), Some((0, 0, 0, 255)));
}

#[test]
fn a_position_outside_the_grid_leaves_no_trace() {
    let info = layout();
    let placed = vec![
        Placed { dir: b"/p".to_vec(), index: 8, icon: vec![] },
        Placed { dir: b"/p".to_vec(), index: 4000000000, icon: vec![] },
    ];
    let tiles = vec![Some(plain(77, 77, [255, 0, 0, 255])), Some(plain(77, 77, [255, 0, 0, 255]))];
    let picture = compose(plain(320, 158, [0, 0, 0, 255]), &info, b"/p", &placed, &tiles);
    assert_eq!(picture.as_raw(), plain(320, 158, [0, 0, 0, 255]).as_raw());
}

#[test]
fn a_later_button_at_the_same_position_lies_on_top() {
    let info = layout();
    let placed = vec![
        Placed { dir: b"/p".to_vec(), index: 2, icon: vec![] },
        Placed { dir: b"/p".to_vec(), index: 2, icon: vec![] },
    ];
    let tiles = vec![Some(plain(77, 77, [255, 0, 0, 255])), Some(plain(77, 77, [0, 255, 0, 255]))];
    let picture = compose(plain(320, 158, [0, 0, 0, 255]), &info, b"/p", &placed, &tiles);
    assert_eq!(picture.get_pixel(162, 0), Some((0, 255, 0, 255)));
}

#[test]
fn one_picture_is_planned_for_each_directory() {
    let info = layout();
    let placed = vec![
        Placed { dir: b"/p".to_vec(), index: 0, icon: vec![] },
        Placed { dir: b"/q".to_vec(), index: 1, icon: vec![] },
        Placed { dir: b"/p".to_vec(), index: 1, icon: vec![] },
    ];
    let tiles = vec![Some(plain(77, 77, [255, 0, 0, 255])), None, Some(plain(77, 77, [0, 255, 0, 255]))];
    let plan = plan_uploads(&info, &placed, &tiles).unwrap();
    assert_eq!(plan.len(), 2);
    assert_eq!(plan[0].0, b"/p/aio.jpg".to_vec());
    assert_eq!(plan[1].0, b"/q/aio.jpg".to_vec());
    assert_eq!((plan[0].1.width(), plan[0].1.height()), (320, 158));
    assert_eq!(plan[0].1.get_pixel(0, 0), Some((255, 0, 0, 255)));
    assert_eq!(plan[0].1.get_pixel(81, 0), Some((0, 255, 0, 255)));
    assert_eq!(plan[1].1.as_raw(), plain(320, 158, [0, 0, 0, 255]).as_raw());
}

#[test]
fn a_plan_wants_a_tile_or_none_for_each_button() {
    let placed = vec![Placed { dir: b"/p".to_vec(), index: 0, icon: vec![] }];
    assert!(matches!(plan_uploads(&layout(), &placed, &vec![]), Err(Error::State)));
}

#[test]
fn a_layout_without_room_for_the_rows_has_no_plan() {
    let info = DeviceInfo::derive(320, 240, 4, 0, 4).unwrap();
    assert!(matches!(plan_uploads(&info, &vec![], &vec![]), Err(Error::Image)));
}

#[test]
fn flash_wipes_the_device_and_writes_one_picture_for_the_directory() {
    let mut deck = deck_with_layout();
    let icon_a = plain(77, 77, [255, 0, 0, 255]);
    let icon_b = plain(30, 30, [0, 0, 255, 255]);
    let cfg = config(vec![("/p/0", Some(png_text(&icon_a))), ("/p/1", Some(png_text(&icon_b)))]);
    let (mut flash, first) = flash_device(&mut deck, &cfg);
    let (written, result) =
        play(&mut deck, &mut flash, first, vec![line("2ok\n"), line("2rd\n"), line("2ok\n")]);
    assert!(matches!(result, Ok(Reply::Done)));
    assert!(flash.is_over());
    assert!(flash.failed().is_empty());
    assert_eq!(flash.planned_uploads(), 1);
    assert_eq!(written.len(), 3);
    assert_eq!(written[0], b"2df /\n".to_vec());
    assert_eq!(written[1], format!("2wi /p/aio.jpg {}\n", written[2].len()).into_bytes());
    let sent = decode_image(&written[2]).unwrap();
    assert_eq!((sent.width(), sent.height()), (320, 158));
    let (r, g, b, _) = sent.get_pixel(38, 38).unwrap();
    assert!(r > 200 && g < 50 && b < 50);
    let (r, g, b, _) = sent.get_pixel(81 + 38, 38).unwrap();
    assert!(r < 50 && g < 50 && b > 200);
    let (r, g, b, _) = sent.get_pixel(200, 120).unwrap();
    assert!(r < 30 && g < 30 && b < 30);
    match deck.get_icon(b"/p/aio.jpg") {
        Step::Finished(Ok(Reply::Icon(cached))) => {
            assert_eq!(cached.get_pixel(0, 0), Some((255, 0, 0, 255)));
            assert_eq!(cached.get_pixel(76, 76), Some((255, 0, 0, 255)));
            assert_eq!(cached.get_pixel(78, 0), Some((0, 0, 0, 255)));
            assert_eq!(encode_jpeg(&cached).unwrap(), written[2]);
        }
        other => panic!("{:?}", other),
    }
}

#[test]
fn flash_asks_for_the_layout_where_it_is_not_known() {
    let mut deck = Deck::new();
    let cfg = config(vec![("/p/0", Some(png_text(&plain(77, 77, [255, 0, 0, 255]))))]);
    let (mut flash, first) = flash_device(&mut deck, &cfg);
    let (written, result) = play(
        &mut deck,
        &mut flash,
        first,
        vec![line("2li 320 240 4 2 4\n"), line("2ok\n"), line("2rd\n"), line("2ok\n")],
    );
    assert!(matches!(result, Ok(Reply::Done)));
    assert_eq!(written[0], b"2li\n".to_vec());
    assert_eq!(written[1], b"2df /\n".to_vec());
    assert!(written[2].starts_with(b"2wi /p/aio.jpg "));
}

#[test]
fn flash_without_buttons_is_a_configuration_error() {
    let mut deck = deck_with_layout();
    let (flash, first) = flash_device(&mut deck, &Config { buttons: None, status: None });
    assert!(matches!(first, Step::Finished(Err(Error::Config))));
    assert!(flash.is_over());
    assert!(!deck.is_busy());
}

#[test]
fn flash_with_no_icons_still_wipes_the_device() {
    let mut deck = deck_with_layout();
    let (mut flash, first) = flash_device(&mut deck, &config(vec![("/p/0", None)]));
    let (written, result) = play(&mut deck, &mut flash, first, vec![line("2ok\n")]);
    assert!(matches!(result, Ok(Reply::Done)));
    assert_eq!(written, vec![b"2df /\n".to_vec()]);
}

#[test]
fn a_failed_wipe_ends_the_flash() {
    let mut deck = deck_with_layout();
    let cfg = config(vec![("/p/0", Some(png_text(&plain(77, 77, [255, 0, 0, 255]))))]);
    let (mut flash, first) = flash_device(&mut deck, &cfg);
    let (written, result) = play(&mut deck, &mut flash, first, vec![line("2no\n")]);
    assert!(matches!(result, Err(Error::Device)));
    assert_eq!(written.len(), 1);
    assert!(flash.is_over());
    assert!(matches!(flash.resume(&mut deck, line("2ok\n")), Step::Finished(Err(Error::State))));
}

#[test]
fn a_layout_that_cannot_be_had_ends_the_flash() {
    let mut deck = Deck::new();
    let cfg = config(vec![("/p/0", Some(png_text(&plain(77, 77, [255, 0, 0, 255]))))]);
    let (mut flash, first) = flash_device(&mut deck, &cfg);
    let (written, result) =
        play(&mut deck, &mut flash, first, vec![Event::Failed(TransportFault::Timeout)]);
    assert!(matches!(result, Err(Error::Transport(TransportFault::Timeout))));
    assert_eq!(written, vec![b"2li\n".to_vec()]);
}

#[test]
fn a_picture_that_fails_is_counted_and_the_next_is_written() {
    let mut deck = deck_with_layout();
    let icon = png_text(&plain(77, 77, [255, 0, 0, 255]));
    let cfg = config(vec![("/p/0", Some(icon.clone())), ("/q/0", Some(icon.clone())), ("/r/0", Some(icon))]);
    let (mut flash, first) = flash_device(&mut deck, &cfg);
    let (written, result) = play(
        &mut deck,
        &mut flash,
        first,
        vec![
            line("2ok\n"),
            line("2rd\n"),
            line("2ok\n"),
            line("2no\n"),
            line("2rd\n"),
            line("2ok\n"),
        ],
    );
    assert!(matches!(result, Ok(Reply::Done)));
    assert_eq!(flash.failed(), &vec![b"/q/aio.jpg".to_vec()]);
    assert_eq!(flash.planned_uploads(), 3);
    let announced: Vec<&Vec<u8>> = written.iter().filter(|w| w.starts_with(b"2wi ")).collect();
    assert_eq!(announced.len(), 3);
    assert!(announced[0].starts_with(b"2wi /p/aio.jpg "));
    assert!(announced[1].starts_with(b"2wi /q/aio.jpg "));
    assert!(announced[2].starts_with(b"2wi /r/aio.jpg "));
    assert!(matches!(deck.get_icon(b"/p/aio.jpg"), Step::Finished(Ok(Reply::Icon(_)))));
    assert!(matches!(deck.get_icon(b"/r/aio.jpg"), Step::Finished(Ok(Reply::Icon(_)))));
}

#[test]
fn an_icon_that_does_not_decode_is_passed_over() {
    let mut deck = deck_with_layout();
    let cfg = config(vec![
        ("/p/0", Some("not base64".to_string())),
        ("/p/1", Some(png_text(&plain(77, 77, [0, 255, 0, 255])))),
    ]);
    let (mut flash, first) = flash_device(&mut deck, &cfg);
    let (_, result) = play(&mut deck, &mut flash, first, vec![line("2ok\n"), line("2rd\n"), line("2ok\n")]);
    assert!(matches!(result, Ok(Reply::Done)));
    match deck.get_icon(b"/p/aio.jpg") {
        Step::Finished(Ok(Reply::Icon(cached))) => {
            assert_eq!(cached.get_pixel(0, 0), Some((0, 0, 0, 255)));
            assert_eq!(cached.get_pixel(81, 0), Some((0, 255, 0, 255)));
        }
        other => panic!("{:?}", other),
    }
}
