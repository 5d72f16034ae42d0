use hyprdesk::model::{monitor_index_of, DeskId, Wrap, DESK_COUNT, MAX_MONITORS, MONITOR_STRIDE};

fn desk(id: u8) -> DeskId {
    DeskId::new(id).expect("valid desk id in test")
}

#[test]
fn mapping_round_trips() {
    for id in 1..=DESK_COUNT {
        for m in 0..usize::from(MAX_MONITORS) {
            let ws = desk(id).workspace_on(m);
            assert_eq!(DeskId::of_workspace(ws), Some(desk(id)));
            assert_eq!(monitor_index_of(ws), Some(m));
        }
    }
}

#[test]
fn special_and_foreign_workspaces_are_rejected() {
    assert_eq!(DeskId::of_workspace(-98), None); // special:scratchpad
    assert_eq!(DeskId::of_workspace(0), None);
    assert_eq!(
        DeskId::of_workspace(MONITOR_STRIDE * i64::from(MAX_MONITORS) + 1),
        None
    );
}

#[test]
fn desk_ten_maps_to_round_workspace_ids() {
    assert_eq!(desk(10).workspace_on(0), 10);
    assert_eq!(desk(10).workspace_on(1), 20);
    assert_eq!(DeskId::of_workspace(20), Some(desk(10)));
    assert_eq!(monitor_index_of(20), Some(1));
}

#[test]
fn stepping_clamps_and_cycles() {
    assert_eq!(DeskId::last().next(Wrap::Clamp), DeskId::last());
    assert_eq!(DeskId::last().next(Wrap::Cycle), DeskId::first());
    assert_eq!(desk(3).next(Wrap::Cycle), desk(4));
    assert_eq!(DeskId::first().prev(Wrap::Clamp), DeskId::first());
    assert_eq!(DeskId::first().prev(Wrap::Cycle), DeskId::last());
    assert_eq!(desk(3).prev(Wrap::Clamp), desk(2));
}

#[test]
fn parsing_validates_range() {
    assert_eq!("3".parse::<DeskId>(), Ok(desk(3)));
    assert_eq!("10".parse::<DeskId>(), Ok(DeskId::last()));
    assert!("0".parse::<DeskId>().is_err());
    assert!("11".parse::<DeskId>().is_err());
    assert!("junk".parse::<DeskId>().is_err());
}

// ---------------------------------------------------------------------
// Further cases
// ---------------------------------------------------------------------

#[test]
fn desk_ids_outside_the_range_are_refused() {
    assert!(DeskId::new(0).is_none());
    assert!(DeskId::new(11).is_none());
    assert_eq!(DeskId::new(7).map(|d| d.id()), Some(7));
}

#[test]
fn all_lists_the_ten_desks_in_order() {
    let all = DeskId::all();
    assert_eq!(all.len(), 10);
    for (i, d) in all.iter().enumerate() {
        assert_eq!(usize::from(d.id()), i + 1);
    }
}

#[test]
fn workspace_edges_of_the_mapping() {
    assert_eq!(DeskId::of_workspace(1), Some(desk(1)));
    assert_eq!(monitor_index_of(1), Some(0));
    assert_eq!(DeskId::of_workspace(80), Some(desk(10)));
    assert_eq!(monitor_index_of(80), Some(7));
    assert_eq!(DeskId::of_workspace(81), None);
    assert_eq!(monitor_index_of(81), None);
    assert_eq!(monitor_index_of(0), None);
    assert_eq!(DeskId::of_workspace(35), Some(desk(5)));
    assert_eq!(monitor_index_of(35), Some(3));
    assert_eq!(desk(5).workspace_on(3), 35);
}

#[test]
fn desk_text_parses_std_unsigned_grammar() {
    assert_eq!("+4".parse::<DeskId>(), Ok(desk(4)));
    assert_eq!("007".parse::<DeskId>(), Ok(desk(7)));
    assert!("-3".parse::<DeskId>().is_err());
    assert!("+".parse::<DeskId>().is_err());
    assert!("".parse::<DeskId>().is_err());
    assert!(" 3".parse::<DeskId>().is_err());
    assert!("300".parse::<DeskId>().is_err());
    assert!("99999999999999999999999".parse::<DeskId>().is_err());
}

#[test]
fn desks_render_as_decimal_numbers() {
    assert_eq!(desk(1).to_string(), "1");
    assert_eq!(desk(10).to_string(), "10");
    for d in DeskId::all() {
        assert_eq!(d.to_string().parse::<DeskId>(), Ok(d));
    }
}

#[test]
fn invalid_desk_message_names_the_range() {
    let err = "x".parse::<DeskId>().unwrap_err();
    assert_eq!(err.to_string(), "desk must be a number in 1..=10");
}

#[test]
fn cycling_steps_return_after_ten() {
    for d in DeskId::all() {
        let mut x = d;
        for _ in 0..10 {
            x = x.next(Wrap::Cycle);
        }
        assert_eq!(x, d);
        assert_eq!(d.next(Wrap::Cycle).prev(Wrap::Cycle), d);
        assert_eq!(d.prev(Wrap::Cycle).next(Wrap::Cycle), d);
    }
    assert_eq!(desk(9).next(Wrap::Clamp), desk(10));
    assert_eq!(desk(2).prev(Wrap::Cycle), desk(1));
}
