use n3::token::{
    LocalTokenGenerator, MultiThreadTokenGenerator, Token, TokenGenerator, TokenNext,
};

#[test]
fn test_multi_thread_gen() {
    let mut generator = MultiThreadTokenGenerator::default();

    generator.next();

    assert_eq!(generator.next(), Token(1));
}

#[test]
fn steps_and_start() {
    let mut generator = LocalTokenGenerator::new(7, 3);
    assert_eq!(generator.next(), Token(7));
    assert_eq!(generator.next(), Token(10));

    let mut generator = MultiThreadTokenGenerator::new(5, 2);
    assert_eq!(generator.next(), Token(5));
    assert_eq!(generator.next(), Token(7));

    let mut generator = LocalTokenGenerator::default();
    assert_eq!(generator.next(), Token(0));
    assert_eq!(generator.next(), Token(1));
}

#[test]
fn tokens_wrap_around() {
    let mut generator = LocalTokenGenerator::new(usize::MAX, 2);
    assert_eq!(generator.next(), Token(usize::MAX));
    assert_eq!(generator.next(), Token(1));

    let mut generator = MultiThreadTokenGenerator::new(usize::MAX, 1);
    assert_eq!(generator.next(), Token(usize::MAX));
    assert_eq!(generator.next(), Token(0));
}

#[test]
fn plain_generator() {
    let mut generator = TokenGenerator::default();
    assert_eq!(generator.next(), 0);
    assert_eq!(generator.next(), 1);
}
