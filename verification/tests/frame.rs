use scene_viewer::frame::{frame_commands, validate_commands, Command, CommandEncodingError};

#[test]
fn one_entity_gives_four_commands() {
    assert_eq!(
        frame_commands(1),
        vec![
            Command::UpdateUniforms(0),
            Command::BeginRenderPass,
            Command::DrawIndexed(0),
            Command::EndRenderPass,
        ]
    );
}

#[test]
fn empty_scene_still_opens_and_closes_the_pass() {
    assert_eq!(
        frame_commands(0),
        vec![Command::BeginRenderPass, Command::EndRenderPass]
    );
}

#[test]
fn all_updates_come_before_the_pass() {
    assert_eq!(
        frame_commands(3),
        vec![
            Command::UpdateUniforms(0),
            Command::UpdateUniforms(1),
            Command::UpdateUniforms(2),
            Command::BeginRenderPass,
            Command::DrawIndexed(0),
            Command::DrawIndexed(1),
            Command::DrawIndexed(2),
            Command::EndRenderPass,
        ]
    );
}

#[test]
fn frames_are_well_formed() {
    for n in 0..20 {
        let commands = frame_commands(n);
        assert_eq!(commands.len(), 2 * n + 2);
        assert_eq!(validate_commands(&commands), Ok(()));
    }
}

#[test]
fn update_inside_the_pass_is_rejected() {
    let commands = vec![
        Command::UpdateUniforms(0),
        Command::BeginRenderPass,
        Command::DrawIndexed(0),
        Command::UpdateUniforms(1),
        Command::DrawIndexed(1),
        Command::EndRenderPass,
    ];
    assert_eq!(
        validate_commands(&commands),
        Err(CommandEncodingError { position: 3 })
    );
}

#[test]
fn draw_outside_the_pass_is_rejected() {
    assert_eq!(
        validate_commands(&vec![Command::UpdateUniforms(0), Command::DrawIndexed(0)]),
        Err(CommandEncodingError { position: 1 })
    );
}

#[test]
fn pass_cannot_be_begun_twice_or_ended_unopened() {
    assert_eq!(
        validate_commands(&vec![Command::BeginRenderPass, Command::BeginRenderPass]),
        Err(CommandEncodingError { position: 1 })
    );
    assert_eq!(
        validate_commands(&vec![Command::EndRenderPass]),
        Err(CommandEncodingError { position: 0 })
    );
}

#[test]
fn pass_left_open_is_rejected_at_the_end() {
    assert_eq!(
        validate_commands(&vec![Command::BeginRenderPass, Command::DrawIndexed(0)]),
        Err(CommandEncodingError { position: 2 })
    );
}

#[test]
fn empty_stream_and_two_passes_are_well_formed() {
    assert_eq!(validate_commands(&vec![]), Ok(()));
    let mut two = frame_commands(1);
    two.extend(frame_commands(2));
    assert_eq!(validate_commands(&two), Ok(()));
}
