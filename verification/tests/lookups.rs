use stt::{ChainedLookup, ConstantLookup, EmptyLookup, Lookup, SingleLookup, Template};

#[test]
fn empty_lookup_resolves_nothing() {
    let lookup = EmptyLookup::new();
    assert_eq!(lookup.lookup("anything"), None);
    assert_eq!(lookup.lookup(""), None);
}

#[test]
fn constant_lookup_resolves_every_name_to_its_value() {
    let lookup = ConstantLookup::new(String::from("same"));
    assert_eq!(lookup.lookup("one"), Some("same"));
    assert_eq!(lookup.lookup("two"), Some("same"));
    assert_eq!(lookup.lookup(""), Some("same"));
}

#[test]
fn single_lookup_resolves_its_key() {
    let lookup = SingleLookup::new("key", "value");
    assert_eq!(lookup.lookup("key"), Some("value"));
}

#[test]
fn single_lookup_resolves_no_other_name() {
    let lookup = SingleLookup::new("key", "value");
    assert_eq!(lookup.lookup("value"), None);
    assert_eq!(lookup.lookup("ke"), None);
    assert_eq!(lookup.lookup("keys"), None);
    assert_eq!(lookup.lookup("Key"), None);
    assert_eq!(lookup.lookup(""), None);
}

#[test]
fn single_lookup_does_not_answer_with_the_name_asked() {
    let lookup = SingleLookup::new("who", "world");
    assert_ne!(lookup.lookup("who"), Some("who"));
    assert_eq!(lookup.lookup("world"), None);
}

#[test]
fn empty_chain_resolves_nothing() {
    let chain: ChainedLookup = ChainedLookup::new();
    assert_eq!(chain.lookup("who"), None);
}

#[test]
fn chain_asks_later_members_when_earlier_ones_do_not_know() {
    let first = SingleLookup::new("alfa", "beta");
    let second = SingleLookup::new("who", "world");
    let mut chain = ChainedLookup::new();
    chain.add(&first);
    chain.add(&second);
    assert_eq!(chain.lookup("alfa"), Some("beta"));
    assert_eq!(chain.lookup("who"), Some("world"));
    assert_eq!(chain.lookup("none"), None);
}

#[test]
fn chain_prefers_the_earlier_member() {
    let a = SingleLookup::new("who", "first");
    let b = SingleLookup::new("who", "second");

    let mut a_then_b = ChainedLookup::new();
    a_then_b.add(&a);
    a_then_b.add(&b);
    assert_eq!(a_then_b.lookup("who"), Some("first"));

    let mut b_then_a = ChainedLookup::new();
    b_then_a.add(&b);
    b_then_a.add(&a);
    assert_eq!(b_then_a.lookup("who"), Some("second"));
}

#[test]
fn chain_in_either_order_renders_hello_world() {
    let a = SingleLookup::new("alfa", "beta");
    let b = SingleLookup::new("who", "world");
    let template = Template::new("Hello $who$!").unwrap();

    let mut a_then_b = ChainedLookup::new();
    a_then_b.add(&a);
    a_then_b.add(&b);
    assert_eq!(template.render(&a_then_b), "Hello world!");

    let mut b_then_a = ChainedLookup::new();
    b_then_a.add(&b);
    b_then_a.add(&a);
    assert_eq!(template.render(&b_then_a), "Hello world!");
}

#[test]
fn chain_of_mixed_members_with_a_default() {
    let known = SingleLookup::new("who", "world");
    let nothing = EmptyLookup::new();
    let fallback = ConstantLookup::new(String::from("?"));
    let mut chain: ChainedLookup = ChainedLookup::new();
    chain.add(&nothing);
    chain.add(&known);
    chain.add(&fallback);
    assert_eq!(chain.lookup("who"), Some("world"));
    assert_eq!(chain.lookup("what"), Some("?"));

    let template = Template::new("$who$ $what$").unwrap();
    assert_eq!(template.render(&chain), "world ?");
}

#[test]
fn default_before_a_member_shadows_it() {
    let known = SingleLookup::new("who", "world");
    let fallback = ConstantLookup::new(String::from("?"));
    let mut chain: ChainedLookup = ChainedLookup::new();
    chain.add(&fallback);
    chain.add(&known);
    assert_eq!(chain.lookup("who"), Some("?"));
}

#[test]
fn chain_may_hold_a_chain() {
    let a = SingleLookup::new("a", "1");
    let b = SingleLookup::new("b", "2");
    let c = SingleLookup::new("a", "3");
    let mut inner = ChainedLookup::new();
    inner.add(&a);
    inner.add(&b);
    let mut outer: ChainedLookup = ChainedLookup::new();
    outer.add(&c);
    outer.add(&inner);
    assert_eq!(outer.lookup("a"), Some("3"));
    assert_eq!(outer.lookup("b"), Some("2"));
    assert_eq!(outer.lookup("c"), None);
}

#[test]
fn add_hands_back_the_chain() {
    let a = SingleLookup::new("a", "1");
    let mut chain = ChainedLookup::new();
    let handed = chain.add(&a);
    assert_eq!(handed.lookup("a"), Some("1"));
}

struct Shout;

impl Lookup for Shout {
    fn lookup(&self, key: &str) -> Option<&str> {
        match key {
            "who" => Some("WORLD"),
            "what" => Some("HELLO"),
            _ => None,
        }
    }
}

#[test]
fn lookup_of_the_callers_own() {
    let template = Template::new("$what$ $who$$mark$").unwrap();
    assert_eq!(template.render(&Shout), "HELLO WORLD");
    let fallback = ConstantLookup::new(String::from("!"));
    let mut chain: ChainedLookup = ChainedLookup::new();
    chain.add(&Shout);
    chain.add(&fallback);
    assert_eq!(template.render(&chain), "HELLO WORLD!");
}
