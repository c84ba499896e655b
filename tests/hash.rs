use cahn_lang::interner::hash_string;

fn chars(s: &str) -> Vec<char> {
    s.chars().collect()
}

#[test]
fn hash_test() {
    let string1 = chars("hej med ");
    let string2 = chars("dig Mille");
    let string3: Vec<char> = string1.iter().chain(string2.iter()).copied().collect();
    let h1 = hash_string(&string1, 0, string1.len());
    assert_eq!(h1, hash_string(&string1, 0, string1.len()));
    let h2 = hash_string(&string2, 0, string2.len());
    let h3 = hash_string(&string3, 0, string3.len());
    assert_eq!(h3, hash_string(&string3, 0, string3.len()));
    assert_eq!(h2, hash_string(&string3, string1.len(), string3.len()));
    assert_eq!(h1, hash_string(&string3, 0, string1.len()));
}
