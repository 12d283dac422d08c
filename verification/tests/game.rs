use guessing_game::game::{play_script, Reply, Session};

#[test]
fn scenario_three_guesses() {
    let lines = vec![
        String::from("10"),
        String::from("90"),
        String::from("50"),
    ];
    let replies = play_script(50, &lines);
    assert_eq!(
        replies,
        vec![Reply::TooSmall, Reply::TooLarge, Reply::Win]
    );
    assert_eq!(replies.len(), 3);
}

#[test]
fn scenario_quit_line() {
    let lines = vec![String::from("quit")];
    let replies = play_script(50, &lines);
    assert_eq!(replies, vec![Reply::Quit]);
    assert_eq!(replies.len(), 1);
}

#[test]
fn scenario_first_guess_wins() {
    let lines = vec![String::from("1")];
    let replies = play_script(1, &lines);
    assert_eq!(replies, vec![Reply::Win]);
}

#[test]
fn script_stops_after_win() {
    let lines = vec![String::from("50"), String::from("10")];
    let replies = play_script(50, &lines);
    assert_eq!(replies, vec![Reply::Win]);
}

#[test]
fn secret_in_range() {
    for _ in 0..100 {
        let session = Session::start();
        let secret = session.secret_value();
        assert!(1 <= secret && secret <= 100);
    }
}

#[test]
fn win_on_equal_guess() {
    let mut session = Session::with_secret(42);
    assert!(!session.is_over());
    assert_eq!(session.step("42"), Reply::Win);
    assert!(session.is_over());
}

#[test]
fn small_guess_continues() {
    let mut session = Session::with_secret(50);
    assert_eq!(session.step("10"), Reply::TooSmall);
    assert!(!session.is_over());
    assert_eq!(session.step("49"), Reply::TooSmall);
    assert!(!session.is_over());
}

#[test]
fn large_guess_continues() {
    let mut session = Session::with_secret(50);
    assert_eq!(session.step("90"), Reply::TooLarge);
    assert!(!session.is_over());
}

#[test]
fn quit_after_prior_guesses() {
    let mut session = Session::with_secret(50);
    assert_eq!(session.step("10"), Reply::TooSmall);
    assert_eq!(session.step("90"), Reply::TooLarge);
    assert_eq!(session.step("abc"), Reply::Quit);
    assert!(session.is_over());
}

#[test]
fn quit_on_empty_line() {
    let mut session = Session::with_secret(50);
    assert_eq!(session.step(""), Reply::Quit);
    assert!(session.is_over());
}

#[test]
fn quit_on_decimal_line() {
    let mut session = Session::with_secret(50);
    assert_eq!(session.step("3.5"), Reply::Quit);
}

#[test]
fn out_of_range_guess_is_compared() {
    let mut session = Session::with_secret(100);
    assert_eq!(session.step("1000"), Reply::TooLarge);
    assert!(!session.is_over());
    assert_eq!(session.step("0"), Reply::TooSmall);
}

#[test]
fn guess_and_quit_directly() {
    let mut session = Session::with_secret(7);
    assert_eq!(session.guess(3), Reply::TooSmall);
    assert_eq!(session.guess(9), Reply::TooLarge);
    assert_eq!(session.quit(), Reply::Quit);
    assert!(session.is_over());
}
