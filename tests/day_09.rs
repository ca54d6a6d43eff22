use everybody_codes::day_09::{Day09, Nucleobase, ScaleDNA, UnionFind};

const EXAMPLE1: &str = "1:CAAGCGCTAAGTTCGCTGGATGTGTGCCCGCG\n2:CTTGAATTGGGCCGTTTACCTGGTTTAACCAT\n3:CTAGCGCTGAGCTGGCTGCCTGGTTGACCGCG";
const EXAMPLE2: &str = "1:GCAGGCGAGTATGATACCCGGCTAGCCACCCC\n2:TCTCGCGAGGATATTACTGGGCCAGACCCCCC\n3:GGTGGAACATTCGAAAGTTGCATAGGGTGGTG\n4:GCTCGCGAGTATATTACCGAACCAGCCCCTCA\n5:GCAGCTTAGTATGACCGCCAAATCGCGACTCA\n6:AGTGGAACCTTGGATAGTCTCATATAGCGGCA\n7:GGCGTAATAATCGGATGCTGCAGAGGCTGCTG";
const EXAMPLE3: &str = "1:GCAGGCGAGTATGATACCCGGCTAGCCACCCC\n2:TCTCGCGAGGATATTACTGGGCCAGACCCCCC\n3:GGTGGAACATTCGAAAGTTGCATAGGGTGGTG\n4:GCTCGCGAGTATATTACCGAACCAGCCCCTCA\n5:GCAGCTTAGTATGACCGCCAAATCGCGACTCA\n6:AGTGGAACCTTGGATAGTCTCATATAGCGGCA\n7:GGCGTAATAATCGGATGCTGCAGAGGCTGCTG\n8:GGCGTAAAGTATGGATGCTGGCTAGGCACCCG";

#[test]
fn day_09_part_1_example() {
    assert_eq!(Day09::part_1(&Day09::parse(EXAMPLE1).unwrap()), 414);
}

#[test]
fn day_09_part_2_example() {
    assert_eq!(Day09::part_2(&Day09::parse(EXAMPLE2).unwrap()), 1245);
}

#[test]
fn day_09_part_3_examples() {
    assert_eq!(Day09::part_3(&Day09::parse(EXAMPLE2).unwrap()), 12);
    assert_eq!(Day09::part_3(&Day09::parse(EXAMPLE3).unwrap()), 36);
}

#[test]
fn day_09_pieces() {
    assert_eq!(Nucleobase::try_from(b'G').unwrap().bits(), 2);
    assert!(Nucleobase::try_from(b'X').is_err());
    let a = Day09::parse("1:CG").unwrap()[0];
    let b: ScaleDNA = Day09::parse("2:CA").unwrap()[0];
    assert_eq!(a.intersect(&b).count_ones(), 1);
    assert!(!a.except(&b).is_zero());
    let scales = Day09::parse("1:C\n2:C").unwrap();
    let mut uf = UnionFind::new(&scales);
    assert!(uf.union(0, 1));
    assert!(!uf.union(1, 0));
    let root = uf.find(1);
    assert_eq!(uf.size(root), Some(2));
}
