//! Tests for unique capabilities and static leases.

use rel_alloc::unique::{Static, StaticVal, Unique};

struct Gumball {
    size: i32,
}

struct Quarter;

impl Unique for Quarter {}

struct Vend;

impl Static for Vend {
    type Unique = Quarter;
    type Target = Gumball;
}

#[test]
fn vend() {
    let mut quarter = Quarter;
    let mut vend = StaticVal::<Vend>::new(&mut quarter, Gumball { size: 100 });

    {
        assert_eq!(core::mem::size_of_val(&vend.as_ref()), 0);

        let gumball = vend.value_mut();
        gumball.size = 6;

        assert_eq!(vend.value().size, 6);

        let gumball_2 = vend.value_mut();
        gumball_2.size = 4;

        assert_eq!(vend.value().size, 4);
    }
}

#[test]
fn lease_read_returns_value() {
    let mut quarter = Quarter;
    let vend = StaticVal::<Vend>::new(&mut quarter, Gumball { size: 100 });
    let gumball = vend.read();
    assert_eq!(gumball.size, 100);
}

#[test]
fn lease_borrows_are_zero_sized() {
    let mut quarter = Quarter;
    let mut vend = StaticVal::<Vend>::new(&mut quarter, Gumball { size: 1 });
    {
        let mut lease_mut = vend.as_mut();
        assert_eq!(core::mem::size_of_val(&lease_mut), 0);
        assert_eq!(core::mem::size_of_val(&lease_mut.as_ref()), 0);
        let reborrow = lease_mut.as_mut();
        assert_eq!(core::mem::size_of_val(&reborrow), 0);
    }
    assert_eq!(vend.value().size, 1);
}
