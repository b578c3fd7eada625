pub mod args;
pub mod box_filter;
pub mod elapsed;
pub mod pixel;

pub use args::{handle_inputs, parse_kernel_size, Arguments};
pub use box_filter::{apply_box_kernel, blur, blur_pixels, check_kernel_size, InputError, MAX_KERNEL_SIZE};
pub use elapsed::Elapsed;
pub use pixel::{Color, PixelGrid};
