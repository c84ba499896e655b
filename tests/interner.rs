use cahn_lang::interner::StringInterner;

fn chars(s: &str) -> Vec<char> {
    s.chars().collect()
}

#[test]
fn string_interner_test_interner() {
    let mut interner = StringInterner::new();
    let atom1 = interner.intern(&chars("hej med dig"));
    let _atom2 = interner.intern(&chars("hvordan går det?"));
    let _atom3 = interner.intern(&chars("rigtig fint"));
    let atom4 = interner.intern(&chars("hej med dig"));
    assert_eq!(atom1, atom4);

    let mut second_interner = StringInterner::new();
    let _atom5 = second_interner.intern(&chars("wooow"));
    let atom6 = second_interner.intern(&chars("hej med dig"));
    assert_ne!(atom4, atom6);
}

#[test]
fn interner_test_interner() {
    let mut interner = StringInterner::new();
    let atom1 = interner.intern(&chars("hej med dig"));
    let _atom2 = interner.intern(&chars("hvordan gÃ¥r det?"));
    let _atom3 = interner.intern(&chars("rigtig fint"));
    let atom4 = interner.intern(&chars("hej med dig"));
    assert_eq!(atom1, atom4);

    let mut second_interner = StringInterner::new();
    let _atom5 = second_interner.intern(&chars("wooow"));
    let atom6 = second_interner.intern(&chars("hej med dig"));
    assert_ne!(atom4, atom6);
}

#[test]
fn interned_slices() {
    let mut interner = StringInterner::new();
    let atom = interner.intern(&chars("hej med"));
    let _atom2 = interner.intern(&chars("dig"));
    let atom3 = interner.cut(atom, 0, 4);
    let atom4 = interner.intern(&chars("hej"));
    let big: String = interner.all_text().iter().collect();
    assert_eq!(big, "hej meddig");
    assert_eq!(atom3, atom4);
}

#[test]
fn intern_of_a_slice_gives_the_handle_back() {
    let mut interner = StringInterner::new();
    let a = interner.intern(&chars("alpha"));
    let b = interner.intern(&chars("beta"));
    let again = interner.slice(a);
    assert_eq!(interner.intern(&again), a);
    assert_ne!(a, b);
    let text: String = interner.slice(b).iter().collect();
    assert_eq!(text, "beta");
}

#[test]
fn cut_strips_quotes_to_the_existing_handle() {
    let mut interner = StringInterner::new();
    let inner = interner.intern(&chars("hi"));
    let quoted = interner.intern(&chars("\"hi\""));
    assert_eq!(interner.cut(quoted, 1, 1), inner);
    let text: String = interner.all_text().iter().collect();
    assert_eq!(text, "hi\"hi\"");
}

#[test]
fn empty_text_interns_once() {
    let mut interner = StringInterner::new();
    let e1 = interner.intern(&[]);
    let e2 = interner.intern(&[]);
    assert_eq!(e1, e2);
    assert_eq!(e1.start, e1.end);
}

#[test]
fn atoms_of_two_interners_differ() {
    let mut a = StringInterner::new();
    let mut b = StringInterner::new();
    let x = a.intern(&chars("same"));
    let y = b.intern(&chars("same"));
    assert_eq!((x.start, x.end), (y.start, y.end));
    assert_ne!(x, y);
}
