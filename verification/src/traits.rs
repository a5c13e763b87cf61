pub mod has_bounding_box_2d;
