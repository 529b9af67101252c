use puzzle_core::crt_screen::Screen;
use puzzle_core::signal_cycles::{Instruction, Payload};

#[test]
fn test_is_pixel_in_sprite() {
    let mut screen = Screen::new();

    screen.move_sprite(1);
    assert_eq!(screen.sprite_middle_x, 2, "sprite middle position");
    assert_eq!(screen.rtc_x, 0, "rtc_x position");

    assert_eq!(screen.is_pixel_in_sprite(), false, "pixel before sprite");
    screen.move_rtc();
    assert_eq!(screen.is_pixel_in_sprite(), true, "pixel at beginning of sprite");
    screen.move_rtc();
    assert_eq!(screen.is_pixel_in_sprite(), true, "pixel at middle of sprite");
    screen.move_rtc();
    assert_eq!(screen.is_pixel_in_sprite(), true, "pixel at end of sprite");
    screen.move_rtc();
    assert_eq!(screen.is_pixel_in_sprite(), false, "pixel after sprite");
}

#[test]
fn drawing_lights_covered_pixels() {
    let mut screen = Screen::new();
    // the sprite starts over columns 0..=2: the first pixel is lit
    screen.draw_pixel();
    assert_eq!(screen.rows[0][0], 'X');
    assert_eq!(screen.rtc_x, 1);
    // park the sprite far away: the next pixel stays dark
    screen.move_sprite(20);
    screen.draw_pixel();
    assert_eq!(screen.rows[0][1], ' ');
}

#[test]
fn processor_draws_two_cycles() {
    let screen = Screen::new();
    let mut processor = puzzle_core::crt_screen::Processor::new(screen);
    processor.add_instruction(Instruction { nb_cycles: 1, payload: Payload::Noop });
    processor.add_instruction(Instruction { nb_cycles: 2, payload: Payload::AddX(3) });
    processor.do_cycle();
    processor.do_cycle();
    processor.do_cycle();
    assert!(processor.is_finished());
    // the sprite moved to columns 3..=5 once the addition completed
    assert_eq!(processor.screen.sprite_middle_x, 4);
    // the first three pixels were drawn while the sprite covered 0..=2
    assert_eq!(processor.screen.rows[0][0], 'X');
    assert_eq!(processor.screen.rows[0][1], 'X');
    assert_eq!(processor.screen.rows[0][2], 'X');
}
