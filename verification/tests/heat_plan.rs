use rio_tiles::heat::{
    HeatBindGroup, HeatBuffer, HeatGrid, HeatPipeline, HEAT_GRID_HEIGHT, HEAT_GRID_WIDTH,
    ITERATIONS_PER_FRAME,
};

#[test]
fn default_grid() {
    let grid = HeatGrid::new();
    assert_eq!((grid.width, grid.height), (HEAT_GRID_WIDTH, HEAT_GRID_HEIGHT));
    assert_eq!(grid.cell_count(), 128 * 128);
    assert_eq!(grid.pad_per_line(), 0);
    assert_eq!(grid.heatmap_len(), 128 * 128);
}

#[test]
fn padding_rounds_rows_up_to_64() {
    let grid = HeatGrid { width: 100, height: 3 };
    assert_eq!(grid.pad_per_line(), 28);
    assert_eq!(grid.heatmap_len(), 128 * 3);
    assert_eq!(HeatGrid { width: 1, height: 1 }.pad_per_line(), 63);
    assert_eq!(HeatGrid { width: 64, height: 1 }.pad_per_line(), 0);
    assert_eq!(HeatGrid { width: 65, height: 1 }.pad_per_line(), 63);
}

#[test]
fn frame_plan() {
    let grid = HeatGrid::new();
    let plan = grid.compute_plan();
    assert_eq!(plan.len(), 6 * ITERATIONS_PER_FRAME as usize + 1);
    let step = [
        (HeatPipeline::Boundary, HeatBindGroup::Boundary),
        (HeatPipeline::Laplacian, HeatBindGroup::Laplacian),
        (HeatPipeline::Iterate, HeatBindGroup::IterateHalf),
        (HeatPipeline::Laplacian, HeatBindGroup::MidpointLaplacian),
        (HeatPipeline::Iterate, HeatBindGroup::IterateFull),
        (HeatPipeline::Copy, HeatBindGroup::Copy),
    ];
    for (i, d) in plan.iter().take(48).enumerate() {
        assert_eq!((d.pipeline, d.bind_group), step[i % 6]);
        assert_eq!((d.x, d.y, d.z), (256, 1, 1));
    }
    let last = plan[48];
    assert_eq!((last.pipeline, last.bind_group), (HeatPipeline::Heatmap, HeatBindGroup::Heatmap));
    assert_eq!((last.x, last.y, last.z), (16, 16, 1));
}

#[test]
fn plan_rounds_workgroups_up() {
    let plan = HeatGrid { width: 10, height: 7 }.compute_plan();
    assert_eq!(plan[0].x, 2);
    assert_eq!((plan[48].x, plan[48].y), (2, 1));
}

#[test]
fn bind_groups() {
    assert_eq!(HeatBindGroup::MidpointLaplacian.pipeline(), HeatPipeline::Laplacian);
    assert_eq!(HeatBindGroup::IterateFull.pipeline(), HeatPipeline::Iterate);
    assert_eq!(
        HeatBindGroup::Copy.buffers(),
        vec![HeatBuffer::Output, HeatBuffer::Data, HeatBuffer::Width, HeatBuffer::Height]
    );
    let entries = HeatBindGroup::Heatmap.bindings();
    assert_eq!(entries.len(), 7);
    assert_eq!(entries[0], (0, HeatBuffer::Data));
    assert_eq!(entries[6], (6, HeatBuffer::Pad));
}

#[test]
fn integer_uniforms() {
    let grid = HeatGrid { width: 100, height: 3 };
    assert_eq!(grid.integer_uniform(HeatBuffer::Width), Some(100));
    assert_eq!(grid.integer_uniform(HeatBuffer::Height), Some(3));
    assert_eq!(grid.integer_uniform(HeatBuffer::Pad), Some(28));
    assert_eq!(grid.integer_uniform(HeatBuffer::Kappa), None);
    assert_eq!(grid.uniform_bytes(HeatBuffer::Width), Some(100u32.to_ne_bytes().to_vec()));
    assert_eq!(grid.uniform_bytes(HeatBuffer::Pad), Some(28u32.to_ne_bytes().to_vec()));
    assert_eq!(grid.uniform_bytes(HeatBuffer::Data), None);
}

#[test]
fn heatmap_starts_zeroed() {
    let grid = HeatGrid { width: 100, height: 3 };
    let bytes = grid.heatmap_bytes();
    assert_eq!(bytes.len(), 4 * 128 * 3);
    assert!(bytes.iter().all(|b| *b == 0));
}

#[test]
fn each_pass_hands_its_result_on() {
    let b = |bg: HeatBindGroup| bg.buffers();
    assert_eq!(b(HeatBindGroup::Laplacian)[1], b(HeatBindGroup::IterateHalf)[1]);
    assert_eq!(b(HeatBindGroup::IterateHalf)[2], b(HeatBindGroup::MidpointLaplacian)[0]);
    assert_eq!(b(HeatBindGroup::MidpointLaplacian)[1], b(HeatBindGroup::IterateFull)[1]);
    assert_eq!(b(HeatBindGroup::IterateFull)[2], b(HeatBindGroup::Copy)[0]);
    assert_eq!(b(HeatBindGroup::Copy)[1], HeatBuffer::Data);
    assert_eq!(b(HeatBindGroup::Heatmap)[0], HeatBuffer::Data);
}

#[test]
fn every_pass_uses_its_bind_groups_pipeline() {
    for d in HeatGrid::new().compute_plan() {
        assert_eq!(d.bind_group.pipeline(), d.pipeline);
    }
}

#[test]
fn heatmap_copy_layout() {
    let copy = HeatGrid::new().heatmap_copy();
    assert_eq!((copy.bytes_per_row, copy.rows_per_image), (512, 128));
    assert_eq!((copy.width, copy.height, copy.depth), (128, 128, 1));
    let grid = HeatGrid { width: 100, height: 3 };
    let copy = grid.heatmap_copy();
    assert_eq!((copy.bytes_per_row, copy.rows_per_image), (512, 3));
    assert_eq!((copy.width, copy.height, copy.depth), (100, 3, 1));
    assert_eq!(copy.bytes_per_row % 256, 0);
    assert_eq!((copy.bytes_per_row * copy.rows_per_image) as usize, grid.heatmap_bytes().len());
}
