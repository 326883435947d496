use tinystd::collections::HashMap;
use tinystd::hashmap::Bin;

#[test]
fn basic() {
    let mut m = HashMap::<i32, i32>::new();
    println!("Checking insertions...");
    m.insert(1, 1);
    m.insert(2, 2);
    assert_eq!(m.get(1), Some(&1));
    assert_eq!(m.get(3), None);

    println!("Checking updates...");
    m.insert(2, 1);
    assert_eq!(m.get(2), Some(&1));

    println!("Checking deletion...");
    m.remove(2);
    assert_eq!(m.get(2), None);
}

#[test]
fn remove_tells_whether_the_key_was_there() {
    let mut m = HashMap::<&str, i32>::new();
    m.insert("baz", 1);
    assert_eq!(m.get("baz"), Some(&1));
    assert_eq!(m.remove("baz"), true);
    assert_eq!(m.get("baz"), None);
    assert_eq!(m.remove("baz"), false);
}

#[test]
fn hash_code_picks_the_bin() {
    let mut m = HashMap::<u64, u64>::new();
    // 92_821 bins: the codes 5 and 92_826 pick the same bin, 6 another
    m.insert_hashed(5, 7, 70);
    assert_eq!(m.get_hashed(5, 7), Some(&70));
    assert_eq!(m.get_hashed(92_826, 7), Some(&70));
    assert_eq!(m.get_hashed(6, 7), None);
    m.insert_hashed(92_826, 8, 80);
    assert_eq!(m.get_hashed(5, 8), Some(&80));
    assert_eq!(m.get_hashed(5, 7), Some(&70));
    assert_eq!(m.remove_hashed(6, 7), false);
    assert_eq!(m.remove_hashed(5, 7), true);
    assert_eq!(m.get_hashed(5, 7), None);
    assert_eq!(m.get_hashed(5, 8), Some(&80));
}

#[test]
fn equal_keys_meet_in_one_bin() {
    // would fail if the key's bytes did not reach the hasher
    let mut m = HashMap::<u32, u32>::new();
    for key in 0..1000 {
        m.insert(key, key + 1);
    }
    for key in 0..1000 {
        assert_eq!(m.get(key), Some(&(key + 1)));
    }
    assert_eq!(m.get(1000), None);
}

#[test]
fn bin_keeps_one_pair_per_key() {
    let mut bin = Bin::<u8, char>::new();
    assert_eq!(bin.get(1), None);
    bin.set(1, 'a');
    bin.set(2, 'b');
    bin.set(1, 'c');
    assert_eq!(bin.get(1), Some(&'c'));
    assert_eq!(bin.get(2), Some(&'b'));
    assert_eq!(bin.delete(3), false);
    assert_eq!(bin.delete(1), true);
    assert_eq!(bin.get(1), None);
    assert_eq!(bin.get(2), Some(&'b'));
    assert_eq!(bin.delete(1), false);
}

#[test]
fn a_key_goes_to_the_bin_of_its_hash_code() {
    let mut m = HashMap::<u32, char>::new();
    let hash = HashMap::<u32, char>::hash_of(&7);
    assert_eq!(hash, HashMap::<u32, char>::hash_of(&7));
    m.insert(7, 'x');
    assert_eq!(m.get_hashed(hash, 7), Some(&'x'));
    m.insert_hashed(hash, 7, 'y');
    assert_eq!(m.get(7), Some(&'y'));
    assert_eq!(m.remove_hashed(hash, 7), true);
    assert_eq!(m.get(7), None);
}
