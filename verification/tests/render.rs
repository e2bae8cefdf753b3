use tvbox_wc::render::{elements, Item, Layer, LayerSurface};
use tvbox_wc::stacking::{Names, Window};

fn window(app_id: &str, title: &str) -> Window {
    Window {
        app_id: Some(app_id.to_owned()),
        title: Some(title.to_owned()),
        w: 100,
        h: 100,
    }
}

fn layer(layer: Layer) -> LayerSurface {
    LayerSurface { layer, placed: true }
}

#[test]
fn the_scene_goes_from_the_pointer_to_the_background() {
    let layers = vec![
        layer(Layer::Background),
        layer(Layer::Top),
        layer(Layer::Overlay),
        layer(Layer::Bottom),
        layer(Layer::Top),
    ];
    let windows = vec![
        window("tvbox-shell", "Home"),
        window("mpv", "film"),
        window("tvbox-shell", "tvbox-overlay"),
    ];
    let names = Names::resolve(None, None);
    assert_eq!(
        elements(true, &layers, &windows, &names, &vec![true, true, true]),
        vec![
            Item::Cursor,
            Item::Layer(2),
            Item::Layer(4),
            Item::Layer(1),
            Item::Window(2),
            Item::Window(0),
            Item::Window(1),
            Item::Layer(3),
            Item::Layer(0),
        ]
    );
}

#[test]
fn what_has_no_place_is_left_out_of_the_scene() {
    let layers = vec![
        LayerSurface { layer: Layer::Top, placed: false },
        layer(Layer::Top),
    ];
    let windows = vec![window("mpv", "film"), window("mpv", "film"), window("mpv", "film")];
    let names = Names::resolve(None, None);
    assert_eq!(
        elements(false, &layers, &windows, &names, &vec![false, true]),
        vec![Item::Layer(1), Item::Window(1)]
    );
    assert_eq!(elements(false, &vec![], &vec![], &names, &vec![]), vec![]);
}
