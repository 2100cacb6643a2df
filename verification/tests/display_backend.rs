use eww::display_backend::{
    layer_placement, le_bytes, strut_list, AnchorAlignment, Edge, LayerPlacement, Rectangle, Side,
};

fn monitor(x: i32, y: i32) -> Rectangle {
    Rectangle { x, y, width: 1920, height: 1080 }
}

#[test]
fn struts_of_each_side() {
    assert_eq!(strut_list(Side::Top, &monitor(0, 0), 3840, 1080, 30), vec![0, 0, 30, 0, 0, 0, 0, 0, 0, 1919, 0, 0]);
    assert_eq!(strut_list(Side::Bottom, &monitor(0, 0), 3840, 1080, 30), vec![0, 0, 0, 31, 0, 0, 0, 0, 0, 0, 0, 1919]);
    assert_eq!(strut_list(Side::Left, &monitor(1920, 0), 3840, 1080, 30), vec![1950, 0, 0, 0, 0, 1079, 0, 0, 0, 0, 0, 0]);
    assert_eq!(strut_list(Side::Right, &monitor(1920, 0), 3840, 1080, 30), vec![0, 31, 0, 0, 0, 0, 0, 1079, 0, 0, 0, 0]);
    assert_eq!(strut_list(Side::Right, &monitor(0, 0), 3840, 1080, 30), vec![0, 1951, 0, 0, 0, 0, 0, 1079, 0, 0, 0, 0]);
}

#[test]
fn struts_of_a_monitor_left_of_the_origin() {
    let r = strut_list(Side::Left, &monitor(-100, 0), 1820, 1080, 50);
    assert_eq!(r[0], (-100i32 as u32) + 50);
    assert_eq!(r[5], 1079);
}

#[test]
fn property_bytes() {
    assert_eq!(le_bytes(&vec![1, 258]), vec![1, 0, 0, 0, 2, 1, 0, 0]);
    assert_eq!(le_bytes(&vec![0xAABBCCDD]), vec![0xDD, 0xCC, 0xBB, 0xAA]);
    assert!(le_bytes(&vec![]).is_empty());
}

#[test]
fn layer_shell_placement() {
    assert_eq!(
        layer_placement(AnchorAlignment::Start, AnchorAlignment::End),
        LayerPlacement { left: true, right: false, top: false, bottom: true, x_margin_edge: Edge::Left, y_margin_edge: Edge::Bottom }
    );
    assert_eq!(
        layer_placement(AnchorAlignment::Center, AnchorAlignment::Center),
        LayerPlacement { left: false, right: false, top: false, bottom: false, x_margin_edge: Edge::Right, y_margin_edge: Edge::Top }
    );
    assert_eq!(
        layer_placement(AnchorAlignment::End, AnchorAlignment::Start),
        LayerPlacement { left: false, right: true, top: true, bottom: false, x_margin_edge: Edge::Right, y_margin_edge: Edge::Top }
    );
}
