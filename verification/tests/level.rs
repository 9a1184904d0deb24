use blockshot::level::{
    ground_tile, props, tuft, Barrel, Board, Boulder, Cluster, Crate, Grass, GroundTile, Props,
    Rock, Tree, Tuft, ZIndex, GROUND_ROWS, TUFTS, Z_BARRELS, Z_BOARDS, Z_CRATES, Z_GRASS,
    Z_GROUND, Z_HOUSE, Z_ROCKS, Z_TREES,
};

#[test]
fn layers_from_ground_to_trees() {
    assert_eq!(
        [Z_GROUND, Z_GRASS, Z_ROCKS, Z_BOARDS, Z_BARRELS, Z_CRATES, Z_HOUSE, Z_TREES],
        [0, 1, 2, 3, 4, 5, 6, 7]
    );
    assert_eq!(ZIndex(Z_TREES), ZIndex(7));
    assert_eq!(GROUND_ROWS, 4);
    assert_eq!(TUFTS, 5);
}

#[test]
fn ground_columns_alternate_below_two_plain_rows() {
    assert_eq!(ground_tile(0, 0), GroundTile::Tile02);
    assert_eq!(ground_tile(0, 1), GroundTile::Tile01);
    assert_eq!(ground_tile(0, 2), GroundTile::Slice);
    assert_eq!(ground_tile(0, 3), GroundTile::Slice);
    assert_eq!(ground_tile(1, 0), GroundTile::Tile04);
    assert_eq!(ground_tile(1, 1), GroundTile::Tile03);
    assert_eq!(ground_tile(1, 2), GroundTile::Slice);
    assert_eq!(ground_tile(1, 3), GroundTile::Slice);
    for x in 0..40 {
        for y in 0..4 {
            assert_eq!(ground_tile(x, y), ground_tile(x % 2, y));
        }
    }
    assert_eq!(ground_tile(u32::MAX, 0), GroundTile::Tile04);
    assert_eq!(ground_tile(7, 9), GroundTile::Slice);
}

#[test]
fn tufts_follow_the_column_they_stand_on() {
    let tall_one = Tuft { grass: Grass::Grass01, tall: true };
    let short_one = Tuft { grass: Grass::Grass01, tall: false };
    let tall_two = Tuft { grass: Grass::Grass02, tall: true };
    let short_two = Tuft { grass: Grass::Grass02, tall: false };
    assert_eq!(
        [tuft(0, 0), tuft(0, 1), tuft(0, 2), tuft(0, 3), tuft(0, 4)],
        [tall_one, short_one, tall_one, short_one, tall_two]
    );
    assert_eq!(
        [tuft(1, 0), tuft(1, 1), tuft(1, 2), tuft(1, 3), tuft(1, 4)],
        [tall_two, short_two, tall_two, short_two, tall_one]
    );
    assert_eq!(tuft(u32::MAX, 4), tall_one);
    assert_eq!(tuft(u32::MAX, 3), short_two);
}

#[test]
fn the_first_sections() {
    assert_eq!(
        props(0),
        Props {
            tree: Some(Tree::Tree01),
            rock: Some(Boulder { rock: Rock::Rock01, size: 0 }),
            cluster: Some(Cluster::Barrels(Barrel::Barrel01)),
            board: Some(Board::Board01),
        }
    );
    assert_eq!(props(1), Props { tree: None, rock: None, cluster: None, board: None });
    assert_eq!(
        props(2),
        Props {
            tree: None,
            rock: Some(Boulder { rock: Rock::Rock04, size: 2 }),
            cluster: Some(Cluster::Crates(Crate::Crate03)),
            board: None,
        }
    );
    assert_eq!(
        props(3),
        Props { tree: Some(Tree::Tree02), rock: None, cluster: None, board: None }
    );
    assert_eq!(
        props(4),
        Props {
            tree: None,
            rock: Some(Boulder { rock: Rock::Rock06, size: 1 }),
            cluster: Some(Cluster::Barrels(Barrel::Barrel02)),
            board: None,
        }
    );
    assert_eq!(
        props(5),
        Props { tree: None, rock: None, cluster: None, board: Some(Board::Board02) }
    );
    assert_eq!(
        props(6),
        Props {
            tree: Some(Tree::Tree01),
            rock: Some(Boulder { rock: Rock::Rock01, size: 0 }),
            cluster: Some(Cluster::Crates(Crate::Crate01)),
            board: None,
        }
    );
}

#[test]
fn the_twenty_sections_of_the_level() {
    let trees: Vec<usize> = (0..20).filter(|i| props(*i).tree.is_some()).collect();
    assert_eq!(trees, vec![0, 3, 6, 9, 12, 15, 18]);
    let rocks: Vec<usize> = (0..20).filter(|i| props(*i).rock.is_some()).collect();
    assert_eq!(rocks, vec![0, 2, 4, 6, 8, 10, 12, 14, 16, 18]);
    let barrels: Vec<usize> =
        (0..20).filter(|i| matches!(props(*i).cluster, Some(Cluster::Barrels(_)))).collect();
    assert_eq!(barrels, vec![0, 4, 8, 12, 16]);
    let crates: Vec<usize> =
        (0..20).filter(|i| matches!(props(*i).cluster, Some(Cluster::Crates(_)))).collect();
    assert_eq!(crates, vec![2, 6, 10, 14, 18]);
    let boards: Vec<(usize, Board)> =
        (0..20).filter_map(|i| props(i).board.map(|board| (i, board))).collect();
    assert_eq!(
        boards,
        vec![(0, Board::Board01), (5, Board::Board02), (10, Board::Board03), (15, Board::Board04)]
    );
    assert_eq!(props(8).cluster, Some(Cluster::Barrels(Barrel::Barrel03)));
    assert_eq!(props(10).cluster, Some(Cluster::Crates(Crate::Crate02)));
    assert_eq!(props(usize::MAX).rock, None);
}
