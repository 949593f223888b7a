pub mod scancode_stream;
