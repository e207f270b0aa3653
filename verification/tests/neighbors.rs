use zebra::neighbor::{IpAddr, Neighbor, NeighborVec};
use zebra::neighbor_map::NeighborMap;

fn v4(a: u8, b: u8, c: u8, d: u8) -> IpAddr {
    IpAddr::V4(u32::from_be_bytes([a, b, c, d]))
}

#[test]
fn sort_add() {
    let mut v = NeighborVec::new();

    let n1 = Neighbor { ipaddr: v4(192, 168, 55, 1) };
    let n2 = Neighbor { ipaddr: v4(192, 168, 55, 2) };
    let n3 = Neighbor { ipaddr: v4(10, 0, 0, 1) };
    let n4 = Neighbor { ipaddr: v4(192, 168, 55, 2) };
    let n5 = Neighbor { ipaddr: IpAddr::V6(1) };

    assert_eq!(v.insert_sort(n1).unwrap(), ());
    assert_eq!(v.insert_sort(n2).unwrap(), ());
    assert_eq!(v.insert_sort(n3).unwrap(), ());
    assert_eq!(v.insert_sort(n4), None);

    assert_eq!(v.len(), 3);

    let nr1 = v.get(0);
    assert_eq!(nr1.ipaddr, v4(10, 0, 0, 1));

    assert_eq!(v.insert_sort(n5).unwrap(), ());
    assert_eq!(v.len(), 4);
}

#[test]
fn insert() {
    let mut v = NeighborMap::new();

    let n1 = Neighbor { ipaddr: v4(192, 168, 55, 1) };
    let n2 = Neighbor { ipaddr: v4(192, 168, 55, 2) };
    let n3 = Neighbor { ipaddr: v4(10, 0, 0, 1) };
    let n4 = Neighbor { ipaddr: v4(192, 168, 55, 2) };
    let n5 = Neighbor { ipaddr: IpAddr::V6(1) };

    if let Some(_) = v.insert(n1.ipaddr, n1) {
        panic!("n1 is already inserted");
    }
    if let Some(_) = v.insert(n2.ipaddr, n2) {
        panic!("n2 is already inserted");
    }
    if let Some(_) = v.insert(n3.ipaddr, n3) {
        panic!("n3 is already inserted");
    }
    assert_eq!(v.len(), 3);

    if let None = v.insert(n4.ipaddr, n4) {
        panic!("n4 is not inserted");
    }
    assert_eq!(v.len(), 3);

    let addr1 = v4(10, 0, 0, 1);
    if let Some(n) = v.get(&addr1) {
        assert_eq!(addr1, n.ipaddr);
    } else {
        panic!("can't find 10.0.0.1");
    }

    if let Some(_) = v.insert(n5.ipaddr, n5) {
        panic!("n5 is already inserted");
    }
    assert_eq!(v.len(), 4);
}

#[test]
fn insert2() {
    let mut v = NeighborMap::new();
    let addr1 = v4(192, 168, 55, 1);
    let addr2 = v4(192, 168, 55, 1);
    let n1 = Neighbor { ipaddr: addr1 };
    let n2 = Neighbor { ipaddr: addr2 };

    let ret = v.insert(addr1, n1);
    match ret {
        Some(_) => {
            panic!("it has old value");
        }
        None => {
            println!("new value");
        }
    }

    let ret = v.insert(addr2, n2);
    match ret {
        Some(_) => {
            println!("it has old value");
        }
        None => {
            panic!("new value");
        }
    }
}
