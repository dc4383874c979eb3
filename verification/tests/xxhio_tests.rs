use nimage::xxhio::{xxhash32, Xxh32};

const LOREM_IPSUM: &[u8] = b"\
Lorem ipsum dolor sit amet, consectetur adipiscing elit. Pellentesque id dolor
ut lorem rutrum pulvinar sed id augue. Pellentesque neque magna, dapibus eget
congue pretium, suscipit nec eros. Vestibulum ipsum metus, efficitur vitae erat
et, sodales interdum quam. Ut nisl eros, semper at fermentum euismod, faucibus
nec dolor. Suspendisse tincidunt lorem luctus dui dapibus finibus. Donec sed
molestie urna, quis suscipit orci. Donec gravida arcu in nisi facilisis
imperdiet. Donec nisi sem, iaculis eu tellus maximus, scelerisque ultricies
tortor. Vestibulum gravida aliquet odio in posuere. Pellentesque sed
ullamcorper augue. Aenean nec sem sem. Fusce condimentum vestibulum nisi quis
dictum.\n";

const LOREM_IPSUM_HASH: u32 = 0x287e3424;

#[test]
fn test_reader() {
    let mut reader = Xxh32::new();
    reader.update(LOREM_IPSUM);
    assert_eq!(reader.total_len(), LOREM_IPSUM.len() as u64);
    assert_eq!(reader.digest(), LOREM_IPSUM_HASH);
    assert_eq!(xxhash32(LOREM_IPSUM), LOREM_IPSUM_HASH);
}

#[test]
fn test_writer() {
    // test lorem ipsum
    let mut writer = Xxh32::new();
    writer.update(LOREM_IPSUM);
    assert_eq!(writer.total_len(), LOREM_IPSUM.len() as u64);
    assert_eq!(writer.digest(), LOREM_IPSUM_HASH);

    // test empty (matches the hasher crate's own test case)
    let mut writer = Xxh32::new();
    writer.update(&[]);
    assert_eq!(writer.total_len(), 0);
    assert_eq!(writer.digest(), 0x02cc5d05);

    // another known value
    let mut writer = Xxh32::new();
    writer.update(b"Hello, world!\0");
    assert_eq!(writer.total_len(), 14);
    assert_eq!(writer.digest(), 0x9e5e7e93);
}

#[test]
fn streaming_matches_oneshot() {
    // digesting data in two chunks through the engine equals digesting it in
    // one call through the free function
    let (a, b) = LOREM_IPSUM.split_at(100);
    let mut engine = Xxh32::new();
    engine.update(a);
    engine.update(b);
    assert_eq!(engine.digest(), xxhash32(LOREM_IPSUM));

    // digest() reads the running value without consuming the state
    let mut engine = Xxh32::new();
    engine.update(a);
    let first = engine.digest();
    assert_eq!(first, xxhash32(a));
    engine.update(b);
    assert_eq!(engine.digest(), LOREM_IPSUM_HASH);
}
