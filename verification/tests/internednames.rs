use dirgather::internednames::bucket;
use dirgather::{InternedName, InternedNames};

#[test]
fn bucket_sums_bytes() {
    // 'a' + 'b' = 97 + 98 = 195
    assert_eq!(bucket::<32>(b"ab"), 195 % 32);
    assert_eq!(bucket::<1>(b"anything"), 0);
    assert_eq!(bucket::<7>(b""), 0);
    assert_eq!(bucket::<200>(b"ba"), 195);
}

#[test]
fn interning_returns_the_name() {
    let mut names: InternedNames<32> = InternedNames::new();
    let a = names.interning(b"foo");
    let b = names.interning(b"foo");
    let c = names.interning(b"bar");
    assert_eq!(a.as_bytes(), b"foo");
    assert_eq!(b.as_bytes(), b"foo");
    assert_eq!(c.as_bytes(), b"bar");
    assert_eq!(c.len(), 3);
}

#[test]
fn interned_name_clone() {
    let n = InternedName::new(b"name");
    let m = n.clone();
    assert_eq!(m.as_bytes(), b"name");
}
