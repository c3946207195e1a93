use vstd::prelude::*;

verus! {

/// The Johto routes that the roaming beasts move between, in ascending order.
pub open spec fn johto_routes() -> Seq<u8> {
    seq![29, 30, 31, 32, 33, 34, 35, 36, 37, 38, 39, 42, 43, 44, 45, 46]
}

/// The Kanto routes that the roaming eon creature moves between, in ascending order.
pub open spec fn kanto_routes() -> Seq<u8> {
    seq![1, 2, 3, 4, 5, 6, 7, 8, 9, 10, 11, 12, 13, 14, 15, 16, 17, 18, 21, 22, 24, 25, 26, 27, 28]
}

pub fn johto_route(i: usize) -> (r: u8)
    requires
        i < 16,
    ensures
        r == johto_routes()[i as int],
{
    let table: [u8; 16] = [29, 30, 31, 32, 33, 34, 35, 36, 37, 38, 39, 42, 43, 44, 45, 46];
    assert(table@ =~= johto_routes());
    table[i]
}

pub fn kanto_route(i: usize) -> (r: u8)
    requires
        i < 25,
    ensures
        r == kanto_routes()[i as int],
{
    let table: [u8; 25] = [
        1, 2, 3, 4, 5, 6, 7, 8, 9, 10, 11, 12, 13, 14, 15, 16, 17, 18, 21, 22, 24, 25, 26, 27, 28,
    ];
    assert(table@ =~= kanto_routes());
    table[i]
}

} // verus!
