use vcvrack_rs::grid::Pos2;
use vcvrack_rs::models::manager::PluginManager;
use vcvrack_rs::models::plugin::TextureId;

const RAIL_START_X: f32 = 100.0;
const RAIL_Y: f32 = 100.0;
const MOCK_RAIL_HEIGHT: u32 = 380;
const GRID_UNIT: f32 = 15.2; // Width of one grid unit (1HP)

/// Points to coordinate units.
fn units(points: f32) -> i64 {
    (points as f64 * 100.0).round() as i64
}

/// Coordinate units to points.
fn points(units: i64) -> f32 {
    (units as f64 / 100.0) as f32
}

fn point(x: f32, y: f32) -> Pos2 {
    Pos2 { x: units(x), y: units(y) }
}

struct MockTextures {
    blank_plate: TextureId,
}

impl MockTextures {
    fn new() -> Self {
        // The id of a mock blank plate texture
        MockTextures { blank_plate: TextureId { id: 1 } }
    }
}

fn create_test_context() -> (PluginManager, MockTextures) {
    let mock_textures = MockTextures::new();
    let manager = PluginManager::new();
    (manager, mock_textures)
}

#[test]
fn gui_tests_test_plugin_selection() {
    let (mut manager, mock_textures) = create_test_context();
    let pos = point(100.0, 100.0);

    // Add a plugin with mock texture
    manager.add_plugin(pos, Some(mock_textures.blank_plate));

    // Simulate Ctrl+Click to select
    manager.select_plugin(pos, true);

    let plugin = manager.get_plugin_at_position(pos).unwrap();
    assert!(plugin.is_selected(), "Plugin should be selected after Ctrl+Click");
}

#[test]
fn test_plugin_deselection() {
    let (mut manager, mock_textures) = create_test_context();
    let pos = point(100.0, 100.0);

    println!("Adding first plugin at {}", points(pos.x));
    manager.add_plugin(pos, Some(mock_textures.blank_plate));
    manager.select_plugin(pos, false);

    let plugin = manager.get_plugin_at_position(pos).unwrap();
    assert!(plugin.is_selected(), "Plugin should be selected after initial selection");

    println!("Test case 0");
    println!("Click position: {}", points(pos.x));
    println!("Expected position: {}", points(pos.x));
    println!("Actual position: {}", points(plugin.position.x));

    // Click outside to deselect
    manager.select_plugin(point(200.0, 200.0), false);

    let plugin = manager.get_plugin_at_position(pos).unwrap();
    assert!(!plugin.is_selected(), "Plugin should be deselected after clicking outside");
}

#[test]
fn test_plugin_context_menu() {
    let (mut manager, mock_textures) = create_test_context();
    let pos = point(100.0, 100.0);

    manager.add_plugin(pos, Some(mock_textures.blank_plate));
    assert_eq!(manager.get_plugins().len(), 1);
}

#[test]
fn test_plugin_grid_positioning() {
    let (mut manager, mock_textures) = create_test_context();

    println!("\nStarting grid positioning test...");
    // Test cases with input click positions and expected grid-snapped positions
    let test_cases = vec![
        // Exact grid positions
        (RAIL_START_X, RAIL_START_X),                                     // Grid 0
        (RAIL_START_X + GRID_UNIT, RAIL_START_X + GRID_UNIT),             // Grid 1
        (RAIL_START_X + 2.0 * GRID_UNIT, RAIL_START_X + 2.0 * GRID_UNIT), // Grid 2
        // Positions that should snap to nearest grid
        (RAIL_START_X + 0.3 * GRID_UNIT, RAIL_START_X),                   // Snaps to Grid 0
        (RAIL_START_X + 1.7 * GRID_UNIT, RAIL_START_X + 2.0 * GRID_UNIT), // Snaps to Grid 2
        (RAIL_START_X + 2.4 * GRID_UNIT, RAIL_START_X + 2.0 * GRID_UNIT), // Snaps to Grid 2
    ];

    for (i, (click_x, expected_x)) in test_cases.iter().enumerate() {
        println!("\nTest case {}", i);
        println!("Click position: {}", click_x);
        println!("Expected position: {}", expected_x);

        let click_pos = point(*click_x, RAIL_Y);
        if manager.add_plugin(click_pos, Some(mock_textures.blank_plate.clone())).is_some() {
            let actual_x = points(manager.get_plugins().last().unwrap().x);
            println!("Actual position: {}", actual_x);
            assert!(
                (actual_x - expected_x).abs() < 0.1,
                "Click at {} should place plugin at {}, but was placed at {}",
                click_x,
                expected_x,
                actual_x
            );
        } else {
            // If position is occupied, it should be the same as expected_x
            assert!(
                (click_x - expected_x).abs() < GRID_UNIT / 2.0,
                "Click at {} should snap to {}, but position was occupied",
                click_x,
                expected_x
            );
        }
    }
}

#[test]
fn test_plugins_on_different_rails() {
    let (mut manager, mock_textures) = create_test_context();

    // Simulate user clicking on the first position of each rail
    let click_positions = vec![
        point(100.0, 100.0), // Top rail, first position
        point(100.0, 480.0), // Bottom rail, first position (100.0 + 380.0)
    ];

    // Add plugins by simulating clicks
    for &click_pos in &click_positions {
        manager.add_plugin(click_pos, Some(mock_textures.blank_plate.clone()));

        // Verify plugin was added at the clicked position
        let plugin = manager.get_plugin_at_position(click_pos).unwrap();

        // X position should be snapped to grid
        let expected_x = 100.0; // First grid position
        assert!(
            (points(plugin.position.x) - expected_x).abs() < 0.1,
            "Plugin should be at x={}, but was at x={}",
            expected_x,
            points(plugin.position.x)
        );

        // Y position should match the rail
        assert!(
            (points(plugin.position.y) - points(click_pos.y)).abs() < 0.1,
            "Plugin should be at y={}, but was at y={}",
            points(click_pos.y),
            points(plugin.position.y)
        );
    }

    // Verify both plugins exist and are at different heights
    let top_plugin = manager.get_plugin_at_position(click_positions[0]).unwrap();
    let bottom_plugin = manager.get_plugin_at_position(click_positions[1]).unwrap();

    // Verify plugins are at the same x position but different y positions
    assert!(
        (points(top_plugin.position.x) - points(bottom_plugin.position.x)).abs() < 0.1,
        "Plugins should have the same x position"
    );
    assert!(
        (points(bottom_plugin.position.y) - points(top_plugin.position.y)
            - MOCK_RAIL_HEIGHT as f32)
            .abs()
            < 0.1,
        "Plugins should be separated by rail height"
    );

    println!("Top plugin position: {:?}", top_plugin.position);
    println!("Bottom plugin position: {:?}", bottom_plugin.position);
}

#[test]
fn test_plugin_deletion() {
    let (mut plugin_manager, mock_textures) = create_test_context();

    // Add two plugins next to each other
    let plugin1_pos = point(RAIL_START_X, RAIL_Y);
    let plugin2_pos = point(RAIL_START_X + GRID_UNIT, RAIL_Y);

    plugin_manager.add_plugin(plugin1_pos, Some(mock_textures.blank_plate.clone()));
    plugin_manager.add_plugin(plugin2_pos, Some(mock_textures.blank_plate));

    // Verify plugins were added
    assert_eq!(plugin_manager.plugin_count(), 2);

    // Delete the second plugin
    plugin_manager.delete_plugin(plugin2_pos);

    // Verify only the second plugin was deleted
    assert_eq!(plugin_manager.plugin_count(), 1);
    assert!(plugin_manager.get_plugin_at_position(plugin1_pos).is_some());
    assert!(plugin_manager.get_plugin_at_position(plugin2_pos).is_none());

    // Try deleting at an empty position
    let empty_pos = point(RAIL_START_X + 100.0, RAIL_Y);
    plugin_manager.delete_plugin(empty_pos);

    // Verify no changes when deleting at empty position
    assert_eq!(plugin_manager.plugin_count(), 1);
    assert!(plugin_manager.get_plugin_at_position(plugin1_pos).is_some());
}

#[test]
fn test_select_rightmost_plugin() {
    let (mut manager, mock_textures) = create_test_context();

    // Add two plugins next to each other
    let left_pos = point(RAIL_START_X, RAIL_Y);
    let right_pos = point(RAIL_START_X + GRID_UNIT, RAIL_Y);

    println!("Adding left plugin at {}", points(left_pos.x));
    manager.add_plugin(left_pos, Some(mock_textures.blank_plate.clone()));
    println!("Adding right plugin at {}", points(right_pos.x));
    manager.add_plugin(right_pos, Some(mock_textures.blank_plate.clone()));

    // Click on the right plugin
    // Click slightly right of center
    let click_pos = point(RAIL_START_X + GRID_UNIT + (GRID_UNIT * 0.25), RAIL_Y);
    println!("Clicking at {}", points(click_pos.x));

    // Select at click position
    assert!(manager.get_plugin_at_position(click_pos).is_some(), "Toggle selection should succeed");
    manager.select_plugin(click_pos, false);

    // Verify the right plugin is selected and left is not
    let left_plugin = manager.get_plugin_at_position(left_pos).unwrap();
    let right_plugin = manager.get_plugin_at_position(right_pos).unwrap();

    assert!(!left_plugin.is_selected(), "Left plugin should not be selected");
    assert!(right_plugin.is_selected(), "Right plugin should be selected");
}

#[test]
fn test_plugin_selection_states_after_adding() {
    let (mut manager, mock_textures) = create_test_context();

    // Add first plugin
    let first_pos = point(RAIL_START_X, RAIL_Y);
    println!("Adding first plugin at {}", points(first_pos.x));
    manager.add_plugin(first_pos, Some(mock_textures.blank_plate.clone()));

    // Verify first plugin is not selected
    let first_plugin = manager.get_plugin_at_position(first_pos).unwrap();
    assert!(!first_plugin.is_selected(), "First plugin should not be selected after adding");

    // Add second plugin
    let second_pos = point(RAIL_START_X + GRID_UNIT, RAIL_Y);
    println!("Adding second plugin at {}", points(second_pos.x));

    println!("Checking for existing plugins at second position:");
    for plugin in manager.plugins() {
        let is_at_pos = plugin.is_at_position(second_pos);
        println!("Plugin at {:?}, is_at_pos: {}", plugin.position, is_at_pos);
    }

    manager.add_plugin(second_pos, Some(mock_textures.blank_plate.clone()));

    let first_plugin = manager.get_plugin_at_position(first_pos).unwrap();
    let second_plugin = manager.get_plugin_at_position(second_pos).unwrap();

    println!("\nPlugin states after adding second plugin:");
    println!("First plugin at {}: selected={}", points(first_pos.x), first_plugin.is_selected());
    println!("Second plugin at {}: selected={}", points(second_pos.x), second_plugin.is_selected());

    assert!(
        !first_plugin.is_selected(),
        "First plugin should not be selected after adding second plugin"
    );
    assert!(!second_plugin.is_selected(), "Second plugin should not be selected when added");
}

#[test]
fn test_plugin_selection_issue_when_adding() {
    let (mut manager, mock_textures) = create_test_context();

    // Add first plugin
    let first_pos = point(RAIL_START_X, RAIL_Y);
    println!("\nAdding first plugin at {}", points(first_pos.x));
    manager.add_plugin(first_pos, Some(mock_textures.blank_plate.clone()));

    // Verify first plugin is not selected
    let first_plugin = manager.get_plugin_at_position(first_pos).unwrap();
    assert!(!first_plugin.is_selected(), "First plugin should not be selected after adding");

    // Add second plugin
    let second_pos = point(RAIL_START_X + GRID_UNIT, RAIL_Y);
    println!("\nAdding second plugin at {}", points(second_pos.x));

    println!("Checking for existing plugins at second position:");
    for plugin in manager.plugins() {
        let is_at_pos = plugin.is_at_position(second_pos);
        println!("Plugin at {:?}, is_at_pos: {}", plugin.position, is_at_pos);
    }

    manager.add_plugin(second_pos, Some(mock_textures.blank_plate.clone()));

    let first_plugin = manager.get_plugin_at_position(first_pos).unwrap();
    let second_plugin = manager.get_plugin_at_position(second_pos).unwrap();

    println!("\nPlugin states after adding second plugin:");
    println!("First plugin at {}: selected={}", points(first_pos.x), first_plugin.is_selected());
    println!("Second plugin at {}: selected={}", points(second_pos.x), second_plugin.is_selected());

    assert!(
        !first_plugin.is_selected(),
        "First plugin should not be selected after adding second plugin"
    );
    assert!(!second_plugin.is_selected(), "Second plugin should not be selected when added");
}

#[test]
fn test_plugin_selection_via_click() {
    let (mut manager, mock_textures) = create_test_context();
    let pos = point(100.0, 100.0);

    // Add a plugin with mock texture
    manager.add_plugin(pos, Some(mock_textures.blank_plate.clone()));

    // Select the plugin by clicking on it
    manager.select_plugin(pos, false);

    // Verify the plugin is selected
    let plugin = manager.get_plugin_at_position(pos).unwrap();
    assert!(plugin.is_selected(), "Plugin should be selected after clicking");
}

#[test]
fn test_delete_selected_plugins() {
    let (mut manager, mock_textures) = create_test_context();
    let pos1 = point(100.0, 100.0);
    let pos2 = point(130.4, 100.0);

    // Add two plugins
    manager.add_plugin(pos1, Some(mock_textures.blank_plate.clone()));
    manager.add_plugin(pos2, Some(mock_textures.blank_plate.clone()));
    assert_eq!(manager.get_plugins().len(), 2, "Should have 2 plugins initially");

    // Select first plugin
    manager.select_plugin(pos1, false);
    let plugin = manager.get_plugin_at_position(pos1).unwrap();
    assert!(plugin.is_selected(), "First plugin should be selected");

    // Delete selected plugins
    manager.delete_selected_plugins();

    // Verify
    assert_eq!(manager.get_plugins().len(), 1, "Should have 1 plugin after deletion");
    assert!(manager.get_plugin_at_position(pos1).is_none(), "First plugin should be deleted");
    assert!(manager.get_plugin_at_position(pos2).is_some(), "Second plugin should still exist");
}
