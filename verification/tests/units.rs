use stackscript::keys::encode_key_event;
use stackscript::keys::KeyAction;
use stackscript::keys::KeyInput;
use stackscript::keys::KeySym;
use stackscript::Object;
use std::rc::Rc;

fn plain(sym: KeySym, action: KeyAction) -> KeyInput {
    KeyInput {
        sym,
        shift: false,
        control: false,
        alt: false,
        super_mod: false,
        hyper: false,
        meta: false,
        action,
    }
}

#[test]
fn encodes_plain_character_press() {
    let k = plain(KeySym::Character('a'), KeyAction::Press);
    assert_eq!(encode_key_event(&k), 97 | (0b01 << 27));
}

#[test]
fn encodes_modifiers_in_order() {
    let mut k = plain(KeySym::Character('x'), KeyAction::Press);
    k.shift = true;
    k.control = true;
    assert_eq!(
        encode_key_event(&k),
        ('x' as u32) | (1 << 21) | (1 << 22) | (0b01 << 27)
    );
}

#[test]
fn encodes_named_keys_and_kinds() {
    let up = plain(KeySym::ArrowUp, KeyAction::Release);
    assert_eq!(encode_key_event(&up), (0b11 << 19) | (0b10 << 27));
    let bs = plain(KeySym::Backspace, KeyAction::Repeat);
    assert_eq!(encode_key_event(&bs), (0b11 << 19) | 0x11 | (0b11 << 27));
    let enter = plain(KeySym::Enter, KeyAction::Press);
    assert_eq!(encode_key_event(&enter), 10 | (0b01 << 27));
}

#[test]
fn object_concat_joins_both_fields() {
    let a = Object::from_bytes(b"ab".to_vec());
    let b = Object::from_bytes(b"cd".to_vec());
    let leaf = Rc::new(Object::from_bytes(b"leaf".to_vec()));
    let list = Object::from_refs(vec![leaf.clone()]);
    let joined = a.concat(&b);
    assert_eq!(joined.data().as_slice(), b"abcd");
    assert_eq!(joined.refs().len(), 0);
    let with_refs = list.concat(&list);
    assert_eq!(with_refs.refs().len(), 2);
    assert_eq!(with_refs.data().len(), 0);
}

#[test]
fn object_concat_is_associative_on_values() {
    let a = Object::from_bytes(b"a".to_vec());
    let b = Object::from_bytes(b"b".to_vec());
    let c = Object::from_bytes(b"c".to_vec());
    let left = a.concat(&b).concat(&c);
    let right = a.concat(&b.concat(&c));
    assert_eq!(left.data(), right.data());
    assert_eq!(left.refs().len(), right.refs().len());
}

#[test]
fn object_slice_takes_both_ranges() {
    let kid1 = Rc::new(Object::from_bytes(b"one".to_vec()));
    let kid2 = Rc::new(Object::from_bytes(b"two".to_vec()));
    let o = Object {
        data: b"abcdef".to_vec(),
        refs: vec![kid1, kid2.clone()],
    };
    let s = o.slice(2..5, 1..2);
    assert_eq!(s.data().as_slice(), b"cde");
    assert_eq!(s.refs().len(), 1);
    assert_eq!(s.refs()[0].data().as_slice(), b"two");
}

#[test]
fn intoref_wraps_one_child() {
    let o = Rc::new(Object::from_bytes(b"inner".to_vec()));
    let wrapped = o.clone().intoref();
    assert_eq!(wrapped.data().len(), 0);
    assert_eq!(wrapped.refs().len(), 1);
    assert_eq!(wrapped.refs()[0].data().as_slice(), b"inner");
}
