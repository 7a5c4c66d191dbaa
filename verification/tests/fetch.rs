use link_preview::fetch::{collect_text, FetchError, PageText, Progress, TextAccumulator, MAX_SIZE};

fn collect(chunks: &[Vec<u8>]) -> Result<String, FetchError> {
    collect_text(chunks).map(PageText::into_string)
}

fn finish(held: TextAccumulator) -> Result<String, FetchError> {
    held.finish().map(PageText::into_string)
}

fn std_text_of_error(bytes: &[u8]) -> String {
    std::str::from_utf8(bytes).unwrap_err().to_string()
}

#[test]
fn the_budget_is_one_mebibyte() {
    assert_eq!(MAX_SIZE, 1_048_576);
}

#[test]
fn a_body_of_no_chunks_is_empty_text() {
    assert_eq!(collect(&[]), Ok(String::new()));
}

#[test]
fn a_small_body_is_kept_whole() {
    let chunks = vec![b"hello ".to_vec(), "wörld €".as_bytes().to_vec(), Vec::new(), b"!".to_vec()];
    assert_eq!(collect(&chunks), Ok("hello wörld €!".to_string()));
}

#[test]
fn a_body_of_exactly_the_budget_is_kept_whole() {
    let chunks = vec![vec![b'a'; MAX_SIZE / 2], vec![b'b'; MAX_SIZE / 2]];
    let text = collect(&chunks).unwrap();
    assert_eq!(text.len(), MAX_SIZE);
    assert_eq!(text.as_bytes(), chunks.concat().as_slice());
}

#[test]
fn a_larger_body_is_cut_at_the_budget() {
    let chunks = vec![vec![b'a'; MAX_SIZE - 3], b"0123456789".to_vec(), b"never read".to_vec()];
    let text = collect(&chunks).unwrap();
    assert_eq!(text.len(), MAX_SIZE);
    assert!(text.ends_with("aaa012"));
}

#[test]
fn a_single_oversize_chunk_is_cut_at_the_budget() {
    let text = collect(&[vec![b'x'; 9 * MAX_SIZE]]).unwrap();
    assert_eq!(text.len(), MAX_SIZE);
}

#[test]
fn the_cut_never_splits_a_character() {
    // two bytes of room, and a three-byte character first in the chunk
    let chunks = vec![vec![b'a'; MAX_SIZE - 2], "€uro".as_bytes().to_vec()];
    let text = collect(&chunks).unwrap();
    assert_eq!(text.len(), MAX_SIZE - 2);
    assert!(text.bytes().all(|b| b == b'a'));
}

#[test]
fn the_cut_keeps_the_characters_that_fit() {
    // five bytes of room: "é" (2) and "€" (3) fit, "😀" does not
    let chunks = vec![vec![b'a'; MAX_SIZE - 5], "é€😀".as_bytes().to_vec()];
    let text = collect(&chunks).unwrap();
    assert_eq!(text.len(), MAX_SIZE);
    assert!(text.ends_with("aé€"));
}

#[test]
fn the_cut_falls_back_to_the_last_complete_character() {
    // six bytes of room: "é€" fill five, one byte of "😀" would be left over
    let chunks = vec![vec![b'a'; MAX_SIZE - 6], "é€😀".as_bytes().to_vec()];
    let text = collect(&chunks).unwrap();
    assert_eq!(text.len(), MAX_SIZE - 1);
    assert!(text.ends_with("aé€"));
}

#[test]
fn the_cut_costs_at_most_three_bytes_of_well_formed_text() {
    // three bytes of room, and a four-byte character
    let chunks = vec![vec![b'a'; MAX_SIZE - 3], "😀".as_bytes().to_vec()];
    let text = collect(&chunks).unwrap();
    assert_eq!(text.len(), MAX_SIZE - 3);
    // a single chunk of four-byte characters only: the budget is a multiple of four
    let text = collect(&["😀".repeat(MAX_SIZE / 4 + 1).into_bytes()]).unwrap();
    assert_eq!(text.len(), MAX_SIZE);
    // the same behind one byte: the last character has one byte too many
    let mut chunk = b"a".to_vec();
    chunk.extend_from_slice("😀".repeat(MAX_SIZE / 4).as_bytes());
    let text = collect(&[chunk]).unwrap();
    assert_eq!(text.len(), MAX_SIZE - 3);
}

#[test]
fn a_chunk_that_overflows_is_cut_at_its_first_byte_that_is_no_text() {
    let mut chunk = vec![b'z'; MAX_SIZE + 5];
    chunk[100] = 0xFF;
    let text = collect(&[b"head:".to_vec(), chunk]).unwrap();
    assert_eq!(text.len(), 105);
    assert!(text.starts_with("head:zzz"));
}

#[test]
fn a_chunk_within_the_budget_that_is_no_text_fails_the_fetch() {
    let chunks = vec![b"fine".to_vec(), vec![0x61, 0xFF, 0x62]];
    let expected = FetchError::Encoding(std_text_of_error(&[0x61, 0xFF, 0x62]));
    assert_eq!(collect(&chunks), Err(expected));
}

#[test]
fn a_character_split_between_two_chunks_is_kept_whole() {
    assert_eq!(collect(&[vec![0x61, 0xC3], vec![0xA9]]), Ok("aé".to_string()));
    assert_eq!(collect(&[vec![0x61, 0xC3, 0xA9]]), Ok("aé".to_string()));
    assert_eq!(collect(&[vec![0xE2, 0x82], vec![0xAC]]), Ok("€".to_string()));
    assert_eq!(collect(&[vec![0xE2], vec![0x82], vec![0xAC]]), Ok("€".to_string()));
    assert_eq!(collect(&[vec![0xE2], vec![], vec![0x82, 0xAC, 0x21]]), Ok("€!".to_string()));
}

#[test]
fn the_chunking_of_well_formed_text_makes_no_difference() {
    let text = "aé€😀 z€é😀";
    let bytes = text.as_bytes();
    for cut in 0..=bytes.len() {
        for second in cut..=bytes.len() {
            let chunks =
                vec![bytes[..cut].to_vec(), bytes[cut..second].to_vec(), bytes[second..].to_vec()];
            assert_eq!(collect(&chunks), Ok(text.to_string()), "{} {}", cut, second);
        }
    }
    let single: Vec<Vec<u8>> = bytes.iter().map(|byte| vec![*byte]).collect();
    assert_eq!(collect(&single), Ok(text.to_string()));
}

#[test]
fn a_body_that_ends_inside_a_character_fails_the_fetch() {
    let expected = FetchError::Encoding(std_text_of_error(&[0xC3]));
    assert_eq!(collect(&[vec![0x61, 0xC3]]), Err(expected));
    let expected = FetchError::Encoding(std_text_of_error(&[0xF0, 0x9F, 0x98]));
    assert_eq!(collect(&[vec![0xF0, 0x9F], vec![0x98]]), Err(expected));
}

#[test]
fn bytes_that_do_not_finish_the_character_held_back_fail_the_fetch() {
    let expected = FetchError::Encoding(std_text_of_error(&[0xC3, 0x41]));
    assert_eq!(collect(&[vec![0x61, 0xC3], vec![0x41]]), Err(expected));
}

#[test]
fn leading_bytes_that_are_no_text_fail_the_fetch_whatever_the_size() {
    let mut chunk = vec![b'a'; MAX_SIZE + 1];
    chunk[0] = 0xFF;
    let expected = FetchError::Encoding(std_text_of_error(&chunk[..MAX_SIZE]));
    assert_eq!(collect(&[chunk]), Err(expected));
    let expected = FetchError::Encoding(std_text_of_error(&[0xFF, b'a']));
    assert_eq!(collect(&[vec![0xFF, b'a']]), Err(expected));
    // in chunks of one byte
    let expected = FetchError::Encoding(std_text_of_error(&[0xFF]));
    assert_eq!(collect(&[vec![], vec![0xFF], vec![b'a']]), Err(expected));
}

#[test]
fn bytes_that_are_no_text_at_the_cut_end_the_text_that_is_held() {
    let text = collect(&[vec![b'a'; MAX_SIZE - 2], vec![0x80, b'b', b'c']]).unwrap();
    assert_eq!(text.len(), MAX_SIZE - 2);
    let text = collect(&[vec![b'a'; MAX_SIZE - 1], vec![0xFF, 0x61]]).unwrap();
    assert_eq!(text.len(), MAX_SIZE - 1);
    assert!(text.bytes().all(|b| b == b'a'));
    // also where a character was held back and is not finished
    let text = collect(&[vec![b'a'; MAX_SIZE - 3], vec![0xE2], vec![0x41, b'b', b'c']]).unwrap();
    assert_eq!(text.len(), MAX_SIZE - 3);
}

#[test]
fn a_failed_read_gives_no_text_at_all() {
    let mut held = TextAccumulator::new();
    assert_eq!(held.push_chunk(b"<title>half a pa"), Ok(Progress::More));
    let failed = held.fail("error decoding response body".to_string());
    assert_eq!(failed, Err(FetchError::Transport("error decoding response body".to_string())));
    let failed = TextAccumulator::new().fail("error sending request".to_string());
    assert_eq!(failed, Err(FetchError::Transport("error sending request".to_string())));
}

#[test]
fn page_text_is_text_within_the_budget() {
    let page = PageText::new("héllo".to_string()).unwrap();
    assert_eq!(page.as_str(), "héllo");
    assert_eq!(page.into_string(), "héllo");
    assert!(PageText::new(String::new()).is_some());
    assert!(PageText::new("a".repeat(MAX_SIZE)).is_some());
    assert!(PageText::new("a".repeat(MAX_SIZE + 1)).is_none());
    assert!(PageText::new("é".repeat(MAX_SIZE / 2 + 1)).is_none());
}

#[test]
fn a_character_held_back_counts_against_the_budget() {
    // the first two bytes of "€" are held back, and its third is the last that fits
    let chunks = vec![vec![b'a'; MAX_SIZE - 3], vec![0xE2, 0x82], vec![0xAC, b'b']];
    let text = collect(&chunks).unwrap();
    assert_eq!(text.len(), MAX_SIZE);
    assert!(text.ends_with("a€"));
    // here its third byte is one too many
    let chunks = vec![vec![b'a'; MAX_SIZE - 2], vec![0xE2, 0x82], vec![0xAC, b'b']];
    let text = collect(&chunks).unwrap();
    assert_eq!(text.len(), MAX_SIZE - 2);
}

#[test]
fn what_follows_the_overflowing_chunk_is_never_looked_at() {
    let chunks = vec![vec![b'a'; MAX_SIZE], b"b".to_vec(), vec![0xFF]];
    let text = collect(&chunks).unwrap();
    assert_eq!(text.len(), MAX_SIZE);
}

#[test]
fn an_accumulator_starts_empty_and_unfinished() {
    let held = TextAccumulator::new();
    assert!(!held.finished());
    assert_eq!(finish(held), Ok(String::new()));
}

#[test]
fn push_chunk_asks_for_more_while_the_budget_lasts() {
    let mut held = TextAccumulator::new();
    assert_eq!(held.push_chunk(b"abc"), Ok(Progress::More));
    assert_eq!(held.push_chunk(b""), Ok(Progress::More));
    assert_eq!(held.push_chunk(&vec![b'd'; MAX_SIZE - 3]), Ok(Progress::More));
    assert!(!held.finished());
    assert_eq!(finish(held).unwrap().len(), MAX_SIZE);
}

#[test]
fn push_chunk_stops_at_once_when_no_room_is_left() {
    let mut held = TextAccumulator::new();
    assert_eq!(held.push_chunk(&vec![b'a'; MAX_SIZE]), Ok(Progress::More));
    assert_eq!(held.push_chunk(b"b"), Ok(Progress::Done));
    assert!(held.finished());
    let text = finish(held).unwrap();
    assert_eq!(text.len(), MAX_SIZE);
    assert!(text.ends_with('a'));
}

#[test]
fn push_chunk_ignores_chunks_once_the_text_is_complete() {
    let mut held = TextAccumulator::new();
    assert_eq!(held.push_chunk(&vec![b'a'; MAX_SIZE - 1]), Ok(Progress::More));
    assert_eq!(held.push_chunk("€".as_bytes()), Ok(Progress::Done));
    assert_eq!(held.push_chunk(b"b"), Ok(Progress::Done));
    assert_eq!(held.push_chunk(&[0xFF]), Ok(Progress::Done));
    assert_eq!(finish(held).unwrap().len(), MAX_SIZE - 1);
}

#[test]
fn push_chunk_leaves_the_text_alone_when_it_refuses_bytes() {
    let mut held = TextAccumulator::new();
    assert_eq!(held.push_chunk(b"abc"), Ok(Progress::More));
    let refused = held.push_chunk(&[0x64, 0xFF]);
    assert_eq!(refused, Err(FetchError::Encoding(std_text_of_error(&[0x64, 0xFF]))));
    assert!(!held.finished());
    assert_eq!(finish(held), Ok("abc".to_string()));
}

#[test]
fn push_chunk_holds_back_a_character_that_the_chunk_leaves_unfinished() {
    let mut held = TextAccumulator::new();
    assert_eq!(held.push_chunk(&[0x61, 0xF0, 0x9F]), Ok(Progress::More));
    assert_eq!(held.push_chunk(&[0x98]), Ok(Progress::More));
    assert_eq!(held.push_chunk(&[0x80, 0x62]), Ok(Progress::More));
    assert_eq!(finish(held), Ok("a😀b".to_string()));
}

#[test]
fn finish_refuses_a_character_left_unfinished() {
    let mut held = TextAccumulator::new();
    assert_eq!(held.push_chunk(&[0x61, 0xE2, 0x82]), Ok(Progress::More));
    assert_eq!(finish(held), Err(FetchError::Encoding(std_text_of_error(&[0xE2, 0x82]))));
}

#[test]
fn a_fetch_error_hands_out_its_description() {
    assert_eq!(FetchError::Transport("timed out".to_string()).into_message(), "timed out");
    assert_eq!(FetchError::Encoding("no text".to_string()).into_message(), "no text");
}
