use mapgen::rng::Lcg;
use mapgen::rooms::{run, update_data_list, Canvas, Cord, Room, TexturePack};

#[test]
fn texture_pack_defaults() {
    let t = TexturePack::new();
    assert_eq!(t.empty, ' ');
    assert_eq!(t.room, '■');
    assert_eq!(t.path, '■');
}

#[test]
fn cord_set_material_overwrites() {
    let mut c = Cord { material: ' ' };
    c.set_material(&'#');
    assert_eq!(c.material, '#');
}

#[test]
fn canvas_new_is_blank() {
    let c = Canvas::new();
    assert_eq!(c.width, 40);
    assert_eq!(c.height, 40);
    assert_eq!(c.num_rooms(), 0);
    assert_eq!(c.get_cord(0, 0), Some(' '));
    assert_eq!(c.get_cord(39, 39), Some(' '));
    assert_eq!(c.get_cord(40, 0), None);
}

#[test]
fn canvas_set_cord_writes_and_reports() {
    let mut c = Canvas::new();
    assert!(c.set_cord(3, 4, '■'));
    assert_eq!(c.get_cord(3, 4), Some('■'));
    assert_eq!(c.get_cord(4, 3), Some(' '));
    assert!(!c.set_cord(40, 4, '■'));
}

#[test]
fn room_sa_sums_room_areas() {
    let mut c = Canvas::new();
    assert_eq!(c.room_sa(), 0);
    c.push_room(Room { x: 2, y: 2, width: 4, height: 5, middle: vec![4, 4] });
    c.push_room(Room { x: 20, y: 20, width: 3, height: 3, middle: vec![21, 21] });
    assert_eq!(c.room_sa(), 29);
    assert_eq!(c.num_rooms(), 2);
}

#[test]
fn room_push_to_map_stamps_all_but_last_row_and_column() {
    let mut c = Canvas::new();
    let r = Room { x: 5, y: 6, width: 4, height: 3, middle: vec![7, 7] };
    r.push_to_map(&mut c, &'■');
    for y in 6..8 {
        for x in 5..8 {
            assert_eq!(c.get_cord(x, y), Some('■'));
        }
    }
    assert_eq!(c.get_cord(8, 6), Some(' '));
    assert_eq!(c.get_cord(5, 8), Some(' '));
}

#[test]
fn run_places_rooms_and_draws_paths() {
    let mut c = Canvas::new();
    let t = TexturePack::new();
    let mut rng = Lcg::new(99);
    let placed = run(&mut c, &t, &mut rng);
    assert_eq!(placed, c.num_rooms());
    assert!(placed < 14);
    assert!(placed >= 1);
    // every placed room's stamped area carries room or path material
    let mut stamped = 0usize;
    for y in 0..40 {
        for x in 0..40 {
            if c.get_cord(x, y) == Some('■') {
                stamped += 1;
            }
        }
    }
    assert!(stamped > 0);
}

#[test]
fn update_data_list_reports_rooms_and_area() {
    let mut c = Canvas::new();
    c.push_room(Room { x: 2, y: 2, width: 4, height: 5, middle: vec![4, 4] });
    let mut data: Vec<(&str, String)> = vec![("stale", String::new())];
    update_data_list(&c, &mut data);
    assert_eq!(data.len(), 2);
    assert_eq!(data[0], ("Number of Rooms", "1".to_string()));
    assert_eq!(data[1], ("Total Room Surface Area", "20".to_string()));
}

#[test]
fn run_keeps_placed_rooms_apart() {
    let mut c = Canvas::new();
    let t = TexturePack::new();
    let mut rng = Lcg::new(7);
    let placed = run(&mut c, &t, &mut rng);
    assert!(placed >= 1);
    for i in 0..placed {
        for j in 0..placed {
            if i != j {
                let a = &c.r_list[i];
                let b = &c.r_list[j];
                assert!(
                    a.x + a.width <= b.x || b.x + b.width <= a.x || a.y + a.height <= b.y
                        || b.y + b.height <= a.y
                );
            }
        }
    }
    // every stamped room cell carries room or path material
    for r in &c.r_list {
        for j in r.y..(r.y + r.height - 1) {
            for i in r.x..(r.x + r.width - 1) {
                let m = c.get_cord(i as usize, j as usize);
                assert!(m == Some(t.room) || m == Some(t.path));
            }
        }
    }
}
